use spruce::errors::{SpruceError, XmlStep};
use spruce::format::detect_format;
use spruce::json::JsonKind;
use spruce::query::{current_type, query_json};

#[test]
fn messages_of_query_errors() {
    let users = "{\"users\":[{\"name\":\"A\"}],\"empty\":[]}";
    assert_eq!(query_json(users, ".nope", true).unwrap_err().message(), "Key 'nope' not found");
    assert_eq!(
        query_json(users, ".users.name", true).unwrap_err().message(),
        "Cannot index into array with key 'name'"
    );
    assert_eq!(
        query_json(users, ".users[-3]", true).unwrap_err().message(),
        "Index -2 out of bounds (length 1)"
    );
    assert_eq!(query_json(users, ".empty[-1]", true).unwrap_err().message(), "Cannot index empty array with -1");
    assert_eq!(query_json(users, "[0]", true).unwrap_err().message(), "Cannot index into object with [0]");
    assert_eq!(
        query_json(users, ".users[0].name.*", true).unwrap_err().message(),
        "Cannot use wildcard on string"
    );
    assert_eq!(query_json("{", ".", true).unwrap_err().message(), "Failed to parse JSON");
}

#[test]
fn messages_of_other_errors() {
    assert_eq!(
        SpruceError::UnknownFormatType("yaml".to_string()).message(),
        "Unknown format type 'yaml'. Use 'json' or 'xml'."
    );
    assert_eq!(
        SpruceError::IndexOutOfBounds(isize::MIN, 0).message(),
        "Index -9223372036854775808 out of bounds (length 0)"
    );
    assert_eq!(SpruceError::XmlWrite(XmlStep::CData).message(), "Failed to write XML CDATA");
    assert_eq!(SpruceError::XmlParse("bad".to_string()).message(), "XML parse error: bad");
    assert_eq!(
        SpruceError::AttributeNotFound("id".to_string()).message(),
        "Attribute 'id' not found on matched nodes"
    );
    assert_eq!(SpruceError::NoMatch("/a".to_string()).message(), "Query '/a' did not match any nodes");
    assert_eq!(SpruceError::IndexOnNonArray(JsonKind::Null, -4).message(), "Cannot index into null with [-4]");
}

#[test]
fn message_of_undetected_format() {
    let e = detect_format("  hello \"there\"\n", None, None).unwrap_err();
    assert_eq!(
        e.message(),
        "Unable to detect format. Use --type json or --type xml to specify.\nContent starts with: \"hello \\\"there\\\"\\n\""
    );
    let e = detect_format("yaml: 1", None, Some("YAML")).unwrap_err();
    assert_eq!(e.message(), "Unknown format type 'yaml'. Use 'json' or 'xml'.");
}

#[test]
fn kind_words() {
    let v: serde_json::Value = serde_json::from_str("[true, 1, null, {}]").unwrap();
    assert_eq!(current_type(&v), "array");
    assert_eq!(current_type(&v[0]), "bool");
    assert_eq!(current_type(&v[1]), "number");
    assert_eq!(current_type(&v[2]), "null");
    assert_eq!(current_type(&v[3]), "object");
    assert_eq!(JsonKind::String.as_str(), "string");
}
