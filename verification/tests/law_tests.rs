use spruce::ansi::parse_ansi;
use spruce::format::{detect_format, format_json, tree_json, DataFormat};
use spruce::query::{query_json, query_xml};

/// The text with its `ESC [ ... m` sequences taken out.
fn strip(s: &str) -> String {
    let cs: Vec<char> = s.chars().collect();
    let mut out = String::new();
    let mut i = 0;
    while i < cs.len() {
        if cs[i] == '\x1b' && i + 1 < cs.len() && cs[i + 1] == '[' {
            let mut j = i + 2;
            while j < cs.len() && cs[j] != 'm' {
                j += 1;
            }
            i = j + 1;
        } else {
            out.push(cs[i]);
            i += 1;
        }
    }
    out
}

const DATA: &str = "{\"name\": \"Spruce\", \"tags\": [\"a\", true, false, null, -2.5e3], \"n\": {\"k\": \"v\"}}";

#[test]
fn formatted_colors_strip_to_plain() {
    colored::control::set_override(true);
    for indent in [0usize, 2, 4] {
        let colored_out = format_json(DATA, indent, false).unwrap();
        let plain = format_json(DATA, indent, true).unwrap();
        assert_ne!(colored_out, plain);
        assert_eq!(strip(&colored_out), plain);
    }
    assert!(format_json("{", 2, false).is_err() && format_json("{", 2, true).is_err());
}

#[test]
fn query_colors_strip_to_plain() {
    colored::control::set_override(true);
    let c = query_json(DATA, ".tags", false).unwrap();
    let p = query_json(DATA, ".tags", true).unwrap();
    assert_eq!(strip(&c), p);
    let xml = "<r><i id=\"1\">x</i><i id=\"2\">y</i></r>";
    let c = query_xml(xml, "/r/i", false).unwrap();
    let p = query_xml(xml, "/r/i", true).unwrap();
    assert_eq!(strip(&c), p);
}

#[test]
fn tree_colors_strip_to_plain() {
    colored::control::set_override(true);
    let c = tree_json(DATA, false).unwrap();
    let p = tree_json(DATA, true).unwrap();
    assert_eq!(strip(&c), p);
}

#[test]
fn color_runs_spell_the_stripped_text() {
    let s = "a\x1b[1;37mb\x1b[0m\x1b[35mcd\x1b[0me";
    let back: String = parse_ansi(s).into_iter().map(|r| r.text).collect();
    assert_eq!(back, strip(s));
    assert_eq!(back, "abcde");
}

#[test]
fn colored_formatting_reads_back_to_the_plain_text() {
    colored::control::set_override(true);
    let c = format_json(DATA, 2, false).unwrap();
    let back: String = parse_ansi(&c).into_iter().map(|r| r.text).collect();
    assert_eq!(back, format_json(DATA, 2, true).unwrap());
}

#[test]
fn hint_wins_and_content_decides() {
    assert_eq!(detect_format("<a/>", Some("x.json"), Some("JSON")).unwrap(), DataFormat::Json);
    assert_eq!(detect_format("{}", Some("x.json"), Some("Xml")).unwrap(), DataFormat::Xml);
    assert_eq!(detect_format(" \n [1]", None, None).unwrap(), DataFormat::Json);
    assert_eq!(detect_format("\t<a/>", None, None).unwrap(), DataFormat::Xml);
}

#[test]
fn query_text_chains() {
    let v: serde_json::Value =
        serde_json::from_str("{\"a\":{\"b\":[{\"c\":7}],\"x\":1}}").unwrap();
    let whole = spruce::query::evaluate_json_query(&v, ".a.b[0].c").unwrap();
    let first = spruce::query::evaluate_json_query(&v, ".a").unwrap();
    let rest = spruce::query::evaluate_json_query(&first, ".b[0].c").unwrap();
    assert_eq!(whole, rest);
    assert!(spruce::query::evaluate_json_query(&v, ".a.nope.c").is_err());
    assert!(spruce::query::evaluate_json_query(&first, ".nope.c").is_err());
}

#[test]
fn json_tree_ignores_is_last_and_colors_strip() {
    colored::control::set_override(true);
    let v: serde_json::Value = serde_json::from_str("{\"k\": [1, \"s\"], \"m\": null}").unwrap();
    let a = spruce::highlight::format_json_tree(&v, "│   ", true, true);
    let b = spruce::highlight::format_json_tree(&v, "│   ", false, true);
    assert_eq!(a, b);
    let c = spruce::highlight::format_json_tree(&v, "│   ", false, false);
    assert_eq!(strip(&c), a);
}

#[test]
fn tree_xml_is_the_xml_tree_drawing() {
    let x = "<r a=\"1\"><c>hi</c><e/></r>";
    assert_eq!(
        spruce::format::tree_xml(x, true).unwrap(),
        spruce::highlight::format_xml_tree(x, true).unwrap()
    );
    assert!(spruce::format::tree_xml("<a></b>", true).is_err());
}

#[test]
fn xml_highlighting_keeps_closed_text() {
    colored::control::set_override(true);
    for x in [
        "<?xml version=\"1.0\"?>\n<a x=\"1\" y>\n  <b/>t<!-- c -->\n</a>",
        "<p id=\"7\" on lang=\"en\">Hello world</p>",
        "a > b",
    ] {
        let pieces = spruce::highlight::xml_pieces(x);
        assert_eq!(spruce::paint::render_plain(&pieces), x);
        assert_eq!(strip(&spruce::highlight::highlight_xml(x, false)), x);
    }
}

#[test]
fn clean_json_tree_strips_to_plain_under_a_prefix() {
    colored::control::set_override(true);
    let v: serde_json::Value = serde_json::from_str("{\"n\": [-1.5e3, 7], \"s\": \"x\", \"b\": false}").unwrap();
    let plain = spruce::highlight::format_json_tree(&v, "    ", true, true);
    assert!(!plain.contains('\x1b'));
    let colored_out = spruce::highlight::format_json_tree(&v, "    ", false, false);
    assert_eq!(strip(&colored_out), plain);
}
