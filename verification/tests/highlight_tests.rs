use spruce::highlight::{format_json_tree, format_xml_tree, highlight_json, highlight_xml, json_pieces, xml_pieces};
use spruce::paint::{render_plain, Hue, Paint};

fn bold(s: &str) -> String {
    format!("\x1b[1;37m{}\x1b[0m", s)
}

fn fg(code: u32, s: &str) -> String {
    format!("\x1b[{}m{}\x1b[0m", code, s)
}

fn spans(ps: &[spruce::paint::Piece]) -> Vec<(String, Paint)> {
    ps.iter().map(|p| (p.text.iter().collect::<String>(), p.paint)).collect()
}

#[test]
fn json_without_color_is_unchanged() {
    let text = "{\n  \"a\": [1, true]\n}";
    assert_eq!(highlight_json(text, true), text);
    assert_eq!(highlight_json("", true), "");
}

#[test]
fn json_pieces_of_an_object() {
    let got = spans(&json_pieces("{\"a\": 1}"));
    let want = vec![
        ("{".to_string(), Paint::BoldFg(Hue::White)),
        ("\"".to_string(), Paint::Fg(Hue::Cyan)),
        ("a".to_string(), Paint::Fg(Hue::Cyan)),
        ("\"".to_string(), Paint::Fg(Hue::Cyan)),
        (":".to_string(), Paint::Fg(Hue::White)),
        (" ".to_string(), Paint::Plain),
        ("1".to_string(), Paint::Fg(Hue::Magenta)),
        ("}".to_string(), Paint::BoldFg(Hue::White)),
    ];
    assert_eq!(got, want);
}

#[test]
fn json_keywords_numbers_and_escapes() {
    let got = spans(&json_pieces("[-1.5e+3,null,\"q\\\"\"]"));
    let want = vec![
        ("[".to_string(), Paint::BoldFg(Hue::White)),
        ("-1.5e+3".to_string(), Paint::Fg(Hue::Magenta)),
        (",".to_string(), Paint::Fg(Hue::White)),
        ("null".to_string(), Paint::Fg(Hue::Magenta)),
        (",".to_string(), Paint::Fg(Hue::White)),
        ("\"".to_string(), Paint::Fg(Hue::Green)),
        ("q".to_string(), Paint::Fg(Hue::Green)),
        ("\\".to_string(), Paint::Fg(Hue::Yellow)),
        ("\"".to_string(), Paint::Fg(Hue::Yellow)),
        ("\"".to_string(), Paint::Fg(Hue::Green)),
        ("]".to_string(), Paint::BoldFg(Hue::White)),
    ];
    assert_eq!(got, want);
}

#[test]
fn json_keywords_are_read_whole() {
    let got = spans(&json_pieces("false"));
    assert_eq!(got, vec![("false".to_string(), Paint::Fg(Hue::Magenta))]);
    let got = spans(&json_pieces("true"));
    assert_eq!(got, vec![("true".to_string(), Paint::Fg(Hue::Magenta))]);
    let got = spans(&json_pieces("fals"));
    assert_eq!(got, vec![("fals".to_string(), Paint::Plain)]);
    let got = spans(&json_pieces("nu"));
    assert_eq!(got, vec![("nu".to_string(), Paint::Plain)]);
    let got = spans(&json_pieces("nullx"));
    assert_eq!(got, vec![("null".to_string(), Paint::Fg(Hue::Magenta)), ("x".to_string(), Paint::Plain)]);
}

#[test]
fn json_keys_are_strings_before_a_colon() {
    let got = spans(&json_pieces("{\"a\" :\"x\",\"b\\\"\":1}"));
    let want = vec![
        ("{".to_string(), Paint::BoldFg(Hue::White)),
        ("\"".to_string(), Paint::Fg(Hue::Cyan)),
        ("a".to_string(), Paint::Fg(Hue::Cyan)),
        ("\"".to_string(), Paint::Fg(Hue::Cyan)),
        (" ".to_string(), Paint::Plain),
        (":".to_string(), Paint::Fg(Hue::White)),
        ("\"".to_string(), Paint::Fg(Hue::Green)),
        ("x".to_string(), Paint::Fg(Hue::Green)),
        ("\"".to_string(), Paint::Fg(Hue::Green)),
        (",".to_string(), Paint::Fg(Hue::White)),
        ("\"".to_string(), Paint::Fg(Hue::Cyan)),
        ("b".to_string(), Paint::Fg(Hue::Cyan)),
        ("\\".to_string(), Paint::Fg(Hue::Yellow)),
        ("\"".to_string(), Paint::Fg(Hue::Yellow)),
        ("\"".to_string(), Paint::Fg(Hue::Cyan)),
        (":".to_string(), Paint::Fg(Hue::White)),
        ("1".to_string(), Paint::Fg(Hue::Magenta)),
        ("}".to_string(), Paint::BoldFg(Hue::White)),
    ];
    assert_eq!(got, want);
}

#[test]
fn json_pieces_keep_the_text() {
    let text = "{\"k\": [1, \"v\", {\"x\": null}], \"e\": \"a\\\\b\"}";
    assert_eq!(render_plain(&json_pieces(text)), text);
}

#[test]
fn json_colored_output() {
    colored::control::set_override(true);
    let got = highlight_json("{\"a\": [1, true, null, \"x\"]}", false);
    let want = [
        bold("{"),
        fg(36, "\""),
        fg(36, "a"),
        fg(36, "\""),
        fg(37, ":"),
        " ".to_string(),
        bold("["),
        fg(35, "1"),
        fg(37, ","),
        " ".to_string(),
        fg(35, "true"),
        fg(37, ","),
        " ".to_string(),
        fg(35, "null"),
        fg(37, ","),
        " ".to_string(),
        fg(32, "\""),
        fg(32, "x"),
        fg(32, "\""),
        bold("]"),
        bold("}"),
    ]
    .concat();
    assert_eq!(got, want);
    assert_eq!(highlight_json("[1]", false), "\x1b[1;37m[\x1b[0m\x1b[35m1\x1b[0m\x1b[1;37m]\x1b[0m");
}

#[test]
fn xml_without_color_is_unchanged() {
    let text = "<a x=\"1\">t</a>";
    assert_eq!(highlight_xml(text, true), text);
}

#[test]
fn xml_colored_output() {
    colored::control::set_override(true);
    let got = highlight_xml("<a x=\"1\">t</a>", false);
    let want = [
        bold("<"),
        fg(34, "a"),
        " ".to_string(),
        fg(33, "x"),
        fg(37, "="),
        fg(33, "\""),
        fg(33, "1"),
        fg(33, "\""),
        bold(">"),
        fg(32, "t"),
        bold("<"),
        bold("/"),
        fg(34, "a"),
        bold(">"),
    ]
    .concat();
    assert_eq!(got, want);
}

#[test]
fn xml_attributes_are_yellow_and_text_green() {
    let got = spans(&xml_pieces("<p id=\"7\" on lang=\"en\">Hello world</p>"));
    let want = vec![
        ("<".to_string(), Paint::BoldFg(Hue::White)),
        ("p".to_string(), Paint::Fg(Hue::Blue)),
        (" ".to_string(), Paint::Plain),
        ("id".to_string(), Paint::Fg(Hue::Yellow)),
        ("=".to_string(), Paint::Fg(Hue::White)),
        ("\"".to_string(), Paint::Fg(Hue::Yellow)),
        ("7".to_string(), Paint::Fg(Hue::Yellow)),
        ("\"".to_string(), Paint::Fg(Hue::Yellow)),
        (" ".to_string(), Paint::Plain),
        ("on".to_string(), Paint::Fg(Hue::Yellow)),
        (" ".to_string(), Paint::Plain),
        ("lang".to_string(), Paint::Fg(Hue::Yellow)),
        ("=".to_string(), Paint::Fg(Hue::White)),
        ("\"".to_string(), Paint::Fg(Hue::Yellow)),
        ("en".to_string(), Paint::Fg(Hue::Yellow)),
        ("\"".to_string(), Paint::Fg(Hue::Yellow)),
        (">".to_string(), Paint::BoldFg(Hue::White)),
        ("Hello world".to_string(), Paint::Fg(Hue::Green)),
        ("<".to_string(), Paint::BoldFg(Hue::White)),
        ("/".to_string(), Paint::BoldFg(Hue::White)),
        ("p".to_string(), Paint::Fg(Hue::Blue)),
        (">".to_string(), Paint::BoldFg(Hue::White)),
    ];
    assert_eq!(got, want);
    let got = spans(&xml_pieces("<e flag/>"));
    assert_eq!(
        got,
        vec![
            ("<".to_string(), Paint::BoldFg(Hue::White)),
            ("e".to_string(), Paint::Fg(Hue::Blue)),
            (" ".to_string(), Paint::Plain),
            ("flag".to_string(), Paint::Fg(Hue::Yellow)),
            ("/".to_string(), Paint::BoldFg(Hue::White)),
            (">".to_string(), Paint::BoldFg(Hue::White)),
        ]
    );
}

#[test]
fn xml_self_closing_comment_and_instruction() {
    colored::control::set_override(true);
    assert_eq!(highlight_xml("<b/>", false), [bold("<"), fg(34, "b"), bold("/"), bold(">")].concat());
    assert_eq!(highlight_xml("<!--c-->", false), fg(90, "<!--c-->"));
    assert_eq!(highlight_xml("<?xml v?>", false), [fg(34, "<"), fg(34, "?xml v?>")].concat());
    assert_eq!(highlight_xml("a>b", false), [fg(32, "a"), bold(">"), fg(32, "b")].concat());
}

#[test]
fn xml_lone_angle_becomes_closing_angle() {
    // A `<` at the very end has nothing to open, and the highlighter shows `>` in its place.
    assert_eq!(render_plain(&xml_pieces("<")), ">");
    assert_eq!(render_plain(&xml_pieces("x<")), "x>");
}

#[test]
fn xml_pieces_of_a_closing_tag() {
    let got = spans(&xml_pieces("</a>"));
    assert_eq!(
        got,
        vec![
            ("<".to_string(), Paint::BoldFg(Hue::White)),
            ("/".to_string(), Paint::BoldFg(Hue::White)),
            ("a".to_string(), Paint::Fg(Hue::Blue)),
            (">".to_string(), Paint::BoldFg(Hue::White)),
        ]
    );
}

#[test]
fn json_tree_without_color() {
    let v: serde_json::Value = serde_json::from_str("{\"a\": [1, \"s\"], \"b\": null}").unwrap();
    let out = format_json_tree(&v, "", false, true);
    assert_eq!(
        out,
        "{\n├── a: [\n│   ├── [0] 1\n│   └── [1] \"s\"\n│   ]\n└── b: null\n}\n"
    );
}

#[test]
fn xml_tree_without_color() {
    let out = format_xml_tree("<r a=\"1\"><c>hi</c><e/></r>", true).unwrap();
    assert_eq!(out, "├── r [@a=\"1\"]\n├── c\n│   ├── \"hi\"\n├── e (empty)\n");
}

#[test]
fn json_tree_of_a_root_array_and_scalars() {
    let v: serde_json::Value = serde_json::from_str("[1, [2]]").unwrap();
    assert_eq!(
        format_json_tree(&v, "", false, true),
        "[\n├──  [0] 1\n└──  [1] [\n    └── [0] 2\n    ]\n]\n"
    );
    let s: serde_json::Value = serde_json::from_str("\"s\"").unwrap();
    assert_eq!(format_json_tree(&s, "", true, true), "\"s\"");
    let n: serde_json::Value = serde_json::from_str("null").unwrap();
    assert_eq!(format_json_tree(&n, "", false, true), "null");
    let e: serde_json::Value = serde_json::from_str("{}").unwrap();
    assert_eq!(format_json_tree(&e, "", false, true), "{\n}\n");
}

#[test]
fn json_tree_colored() {
    colored::control::set_override(true);
    let v: serde_json::Value = serde_json::from_str("{\"k\": [true]}").unwrap();
    let got = format_json_tree(&v, "", false, false);
    let want = [
        "{\n└── ".to_string(),
        fg(36, "k"),
        ": [\n    └── ".to_string(),
        bold("[0]"),
        " ".to_string(),
        fg(35, "true"),
        "\n    ]\n}\n".to_string(),
    ]
    .concat();
    assert_eq!(got, want);
}

#[test]
fn xml_tree_colored() {
    colored::control::set_override(true);
    let got = format_xml_tree("<r a=\"1\">hi</r>", false).unwrap();
    let want = [
        "├── ".to_string(),
        fg(34, "r"),
        " [".to_string(),
        fg(33, "a"),
        "=".to_string(),
        fg(33, "\"1\""),
        "]\n".to_string(),
        "├── ".to_string(),
        fg(32, "\"hi\""),
        "\n".to_string(),
    ]
    .concat();
    assert_eq!(got, want);
}
