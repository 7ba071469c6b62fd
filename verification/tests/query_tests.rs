use spruce::errors::SpruceError;
use spruce::json::JsonKind;
use spruce::query::{
    build_xml_tree, evaluate_json_query, evaluate_xml_query, parse_json_path,
    parse_xml_part, query_json, query_xml, xml_node_to_json, PathSegment, XmlNode,
};
use spruce::cli::query_content;
use spruce::format::DataFormat;

const USERS: &str = "{\"users\":[{\"name\":\"A\",\"email\":\"a@x\"},{\"name\":\"B\"}],\"empty\":[]}";

#[test]
fn json_query_keys_and_indices() {
    assert_eq!(query_json(USERS, ".users[0].name", true).unwrap(), "\"A\"");
    assert_eq!(query_json(USERS, "$.users[1].name", true).unwrap(), "\"B\"");
    assert_eq!(query_json(USERS, "  .users[-1].name  ", true).unwrap(), "\"B\"");
    assert_eq!(query_json(USERS, "['users'][0]['email']", true).unwrap(), "\"a@x\"");
    assert_eq!(query_json(USERS, "users.0", true).unwrap_err().to_key(), Some("0".to_string()));
}

trait KeyOf {
    fn to_key(&self) -> Option<String>;
}

impl KeyOf for SpruceError {
    fn to_key(&self) -> Option<String> {
        match self {
            SpruceError::KeyOnNonObject(_, k) => Some(k.clone()),
            SpruceError::KeyNotFound(k) => Some(k.clone()),
            _ => None,
        }
    }
}

#[test]
fn json_query_whole_value() {
    assert_eq!(query_json("[1,2]", ".", true).unwrap(), "[\n  1,\n  2\n]");
    assert_eq!(query_json("[1,2]", "$", true).unwrap(), "[\n  1,\n  2\n]");
    assert_eq!(query_json("[1,2]", "", true).unwrap(), "[\n  1,\n  2\n]");
}

#[test]
fn json_query_wildcards() {
    assert_eq!(query_json("{\"b\":2,\"a\":1}", ".*", true).unwrap(), "[\n  1,\n  2\n]");
    assert_eq!(query_json("{\"x\":[3,4]}", ".x[*]", true).unwrap(), "[\n  3,\n  4\n]");
    // the steps after a wildcard apply to every element
    assert!(matches!(query_json("{\"x\":[3,4]}", ".x.*.nothing", true),
        Err(SpruceError::KeyOnNonObject(JsonKind::Number, k)) if k == "nothing"));
}

#[test]
fn json_query_errors() {
    assert!(matches!(query_json(USERS, ".nope", true), Err(SpruceError::KeyNotFound(k)) if k == "nope"));
    assert!(matches!(query_json(USERS, ".users.name", true),
        Err(SpruceError::KeyOnNonObject(JsonKind::Array, k)) if k == "name"));
    assert!(matches!(query_json(USERS, ".users[5]", true), Err(SpruceError::IndexOutOfBounds(5, 2))));
    assert!(matches!(query_json(USERS, ".users[-3]", true), Err(SpruceError::IndexOutOfBounds(-1, 2))));
    assert!(matches!(query_json(USERS, ".empty[-1]", true), Err(SpruceError::IndexEmptyArray(-1))));
    assert!(matches!(query_json(USERS, "[0]", true), Err(SpruceError::IndexOnNonArray(JsonKind::Object, 0))));
    assert!(matches!(query_json(USERS, ".users[0].name.*", true),
        Err(SpruceError::WildcardOnScalar(JsonKind::String))));
    assert!(matches!(query_json("{", ".a", true), Err(SpruceError::JsonParse)));
}

#[test]
fn json_path_segments() {
    let segs = parse_json_path("a[0]['b'].*[x]..c[]");
    let shown: Vec<String> = segs.iter().map(|s| match s {
        PathSegment::Key(k) => format!("key {}", k),
        PathSegment::Index(i) => format!("index {}", i),
        PathSegment::Wildcard => "wildcard".to_string(),
    }).collect();
    assert_eq!(shown, vec!["key a", "index 0", "key b", "wildcard", "key x", "key c"]);
}

#[test]
fn json_path_signed_index() {
    let segs = parse_json_path("[+7][-0][99999999999999999999]");
    assert!(matches!(segs[0], PathSegment::Index(7)));
    assert!(matches!(segs[1], PathSegment::Index(0)));
    assert!(matches!(&segs[2], PathSegment::Key(k) if k == "99999999999999999999"));
}

#[test]
fn json_query_keys_of_any_characters() {
    let segs = parse_json_path("名字.a");
    assert!(matches!(&segs[0], PathSegment::Key(k) if k == "名字"));
    assert!(matches!(&segs[1], PathSegment::Key(k) if k == "a"));
    assert_eq!(segs.len(), 2);
    let data = "{\"名前\": {\"é\": [1, 2]}}";
    assert_eq!(query_json(data, ".名前.é[1]", true).unwrap(), "2");
    assert_eq!(query_json(data, "['名前']", true).unwrap(), "{\n  \"é\": [\n    1,\n    2\n  ]\n}");
}

#[test]
fn evaluate_query_on_value() {
    let v: serde_json::Value = serde_json::from_str("{\"a\":{\"b\":[10,20]}}").unwrap();
    let r = evaluate_json_query(&v, ".a.b[1]").unwrap();
    assert_eq!(r, serde_json::Value::from(20));
}

#[test]
fn xml_part_split() {
    assert_eq!(parse_xml_part("item@id"), ("item", Some("id")));
    assert_eq!(parse_xml_part("item"), ("item", None));
    assert_eq!(parse_xml_part("@id"), ("", Some("id")));
}

#[test]
fn xml_node_attributes() {
    let n = XmlNode::new("item".to_string());
    assert_eq!(n.name, "item");
    assert_eq!(n.find_attr("id"), None);
    let mut reader = reader_of("<r><item id=\"1\" id2=\"x\"/></r>");
    let root = build_xml_tree(&mut reader).unwrap();
    assert_eq!(root.name, "__root__");
    let item = &root.children[0].children[0];
    assert_eq!(item.find_attr("id"), Some("1"));
    assert_eq!(item.find_attr("id2"), Some("x"));
    assert_eq!(item.find_attr("nope"), None);
}

const PEOPLE: &str = "<root><person id=\"1\">Al</person><person id=\"2\">Bo</person><group><person>Cy</person></group></root>";

#[test]
fn xml_tree_and_query() {
    let mut reader = reader_of(PEOPLE);
    let root = build_xml_tree(&mut reader).unwrap();
    let found = evaluate_xml_query(&root, &["root", "person"]);
    let texts: Vec<&str> = found.iter().map(|n| n.text.as_str()).collect();
    assert_eq!(texts, vec!["Al", "Bo"]);
    let any = evaluate_xml_query(&root, &["root", "*", "person"]);
    assert_eq!(any.len(), 1);
    assert_eq!(any[0].text, "Cy");
    let none = evaluate_xml_query(&root, &["nothing", "person"]);
    assert!(none.is_empty());
    let with_id = evaluate_xml_query(&root, &["root", "person@id"]);
    assert_eq!(with_id.len(), 2);
    let itself = evaluate_xml_query(&root, &[]);
    assert_eq!(itself[0].name, "__root__");
}

#[test]
fn xml_query_nodes_as_json() {
    let out = query_xml(PEOPLE, "/root/person", true).unwrap();
    assert_eq!(out, "[\n  {\n    \"#text\": \"Al\",\n    \"@id\": \"1\"\n  },\n  {\n    \"#text\": \"Bo\",\n    \"@id\": \"2\"\n  }\n]");
    let out = query_xml(PEOPLE, "//root/group/", true).unwrap();
    assert_eq!(out, "{\n  \"person\": \"Cy\"\n}");
}

#[test]
fn xml_query_attributes() {
    assert_eq!(query_xml(PEOPLE, "/root/person/@id", true).unwrap(), "[\n  \"1\",\n  \"2\"\n]");
    assert_eq!(query_xml("<a k=\"v\"/>", "/a@k", true).unwrap(), "\"v\"");
}

#[test]
fn xml_query_errors() {
    assert!(matches!(query_xml(PEOPLE, "/root/missing", true), Err(SpruceError::NoMatch(q)) if q == "/root/missing"));
    assert!(matches!(query_xml(PEOPLE, "/root/person/@nope", true),
        Err(SpruceError::AttributeNotFound(k)) if k == "nope"));
    assert!(matches!(query_xml("<a></b>", "/a", true), Err(SpruceError::XmlParse(_))));
}

#[test]
fn xml_leaf_without_text_is_its_name() {
    let mut reader = reader_of("<r><leaf/></r>");
    let root = build_xml_tree(&mut reader).unwrap();
    let v = xml_node_to_json(&root.children[0].children[0]);
    assert_eq!(v, serde_json::Value::String("leaf".to_string()));
}

#[test]
fn query_command_dispatch() {
    assert_eq!(query_content(DataFormat::Json, "{\"a\":1}", ".a", true).unwrap(), "1");
    assert_eq!(query_content(DataFormat::Xml, "<a>t</a>", "/a", true).unwrap(), "\"t\"");
}

fn reader_of(text: &str) -> quick_xml::Reader<&[u8]> {
    let mut reader = quick_xml::Reader::from_str(text);
    reader.config_mut().trim_text(true);
    reader
}

#[test]
fn query_steps_chain_on_values() {
    let v: serde_json::Value = serde_json::from_str(USERS).unwrap();
    let whole = evaluate_json_query(&v, ".users[1].name").unwrap();
    let first = evaluate_json_query(&v, ".users").unwrap();
    let rest = evaluate_json_query(&first, "[1].name").unwrap();
    assert_eq!(whole, rest);
    assert_eq!(whole, serde_json::Value::String("B".to_string()));
}

#[test]
fn negative_index_counts_from_the_end() {
    let v: serde_json::Value = serde_json::from_str("[5,6,7]").unwrap();
    assert_eq!(evaluate_json_query(&v, "[-1]").unwrap(), evaluate_json_query(&v, "[2]").unwrap());
    assert_eq!(evaluate_json_query(&v, "[-3]").unwrap(), serde_json::Value::from(5));
}

#[test]
fn node_object_holds_attributes_text_and_children() {
    let mut reader = reader_of("<r><p id=\"7\">t<q/></p></r>");
    let root = build_xml_tree(&mut reader).unwrap();
    let p = &root.children[0].children[0];
    assert_eq!(p.find_attr("id"), Some("7"));
    let v = xml_node_to_json(p);
    let expected: serde_json::Value = serde_json::from_str("{\"#text\":\"t\",\"@id\":\"7\",\"q\":\"q\"}").unwrap();
    assert_eq!(v, expected);
}

#[test]
fn wildcard_applies_the_rest_to_every_element() {
    let v: serde_json::Value = serde_json::from_str("{\"items\": [{\"id\": 1}, {\"id\": 2}]}").unwrap();
    assert_eq!(evaluate_json_query(&v, ".items.*.id").unwrap(), serde_json::from_str::<serde_json::Value>("[1,2]").unwrap());
    let users = "{\"users\":[{\"email\":\"a@x\"},{\"email\":\"b@y\"}]}";
    assert_eq!(query_json(users, ".users.*.email", true).unwrap(), "[\n  \"a@x\",\n  \"b@y\"\n]");
    let nested = "[[1,2],[3]]";
    assert_eq!(query_json(nested, ".*.*", true).unwrap(), "[\n  [\n    1,\n    2\n  ],\n  [\n    3\n  ]\n]");
    assert_eq!(query_json("{\"b\":{\"k\":2},\"a\":{\"k\":1}}", ".*.k", true).unwrap(), "[\n  1,\n  2\n]");
    assert!(matches!(query_json("[{\"id\":1},{}]", ".*.id", true), Err(SpruceError::KeyNotFound(k)) if k == "id"));
    assert_eq!(query_json("[]", ".*.id", true).unwrap(), "[]");
}

#[test]
fn leading_dollar_is_dropped() {
    let v: serde_json::Value = serde_json::from_str("[10, 20]").unwrap();
    assert_eq!(evaluate_json_query(&v, "$[1]").unwrap(), serde_json::Value::from(20));
    assert_eq!(query_json("{\"a\":1}", "$a", true).unwrap(), "1");
    assert_eq!(query_json("{\"a\":1}", "$.a", true).unwrap(), "1");
}

#[test]
fn text_step_selects_element_text() {
    assert_eq!(query_xml("<root><item>hi</item></root>", "/root/item/text()", true).unwrap(), "\"hi\"");
    assert_eq!(query_xml(PEOPLE, "/root/person/text()", true).unwrap(), "[\n  \"Al\",\n  \"Bo\"\n]");
    assert!(matches!(query_xml("<r><e/></r>", "/r/e/text()", true), Err(SpruceError::NoText(q)) if q == "/r/e/text()"));
    assert!(matches!(query_xml("<r/>", "/r/x/text()", true), Err(SpruceError::NoMatch(_))));
    assert_eq!(
        SpruceError::NoText("/r/e/text()".to_string()).message(),
        "Query '/r/e/text()' matched no node with text"
    );
}

#[test]
fn tree_from_text() {
    let root = spruce::query::xml_tree_from_text(PEOPLE).unwrap();
    assert_eq!(root.name, "__root__");
    assert_eq!(root.children[0].name, "root");
    assert_eq!(root.children[0].children.len(), 3);
    assert!(matches!(spruce::query::xml_tree_from_text("<a></b>"), Err(SpruceError::XmlParse(_))));
}
