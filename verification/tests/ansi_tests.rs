use spruce::ansi::{ansi_shade_exec, parse_ansi, Shade};
use spruce::highlight::{highlight_json, highlight_xml};

fn runs(text: &str) -> Vec<(String, Shade)> {
    parse_ansi(text).into_iter().map(|s| (s.text, s.color)).collect()
}

#[test]
fn plain_text_is_one_run() {
    assert_eq!(runs("plain"), vec![("plain".to_string(), Shade::Text)]);
    assert_eq!(runs(""), vec![]);
}

#[test]
fn color_and_reset() {
    assert_eq!(
        runs("\x1b[32mhi\x1b[0m there"),
        vec![("hi".to_string(), Shade::Green), (" there".to_string(), Shade::Text)]
    );
}

#[test]
fn bold_is_skipped_and_last_color_wins() {
    assert_eq!(runs("\x1b[1;36mk\x1b[0m"), vec![("k".to_string(), Shade::Sapphire)]);
    assert_eq!(runs("\x1b[31m\x1b[34mx"), vec![("x".to_string(), Shade::Blue)]);
    assert_eq!(runs("\x1b[0;97mx"), vec![("x".to_string(), Shade::Text)]);
}

#[test]
fn unknown_and_signed_codes() {
    assert_eq!(runs("\x1b[99mx"), vec![("x".to_string(), Shade::Text)]);
    assert_eq!(runs("\x1b[300mx"), vec![("x".to_string(), Shade::Text)]);
    assert_eq!(runs("\x1b[+32mx"), vec![("x".to_string(), Shade::Green)]);
    assert_eq!(runs("\x1b[33;zzmx"), vec![("x".to_string(), Shade::Peach)]);
}

#[test]
fn escape_without_bracket_drops_the_next_character() {
    assert_eq!(runs("a\x1bXb"), vec![("a\x1bb".to_string(), Shade::Text)]);
    assert_eq!(runs("a\x1b"), vec![("a\x1b".to_string(), Shade::Text)]);
}

#[test]
fn unterminated_code_still_applies() {
    assert_eq!(runs("ab\x1b[35"), vec![("ab".to_string(), Shade::Text)]);
    assert_eq!(runs("\x1b[35"), vec![]);
}

#[test]
fn palette_of_codes() {
    assert_eq!(ansi_shade_exec(30), Some(Shade::DarkGray));
    assert_eq!(ansi_shade_exec(37), Some(Shade::Subtext));
    assert_eq!(ansi_shade_exec(90), Some(Shade::Gray));
    assert_eq!(ansi_shade_exec(95), Some(Shade::Pink));
    assert_eq!(ansi_shade_exec(96), Some(Shade::Teal));
    assert_eq!(ansi_shade_exec(97), Some(Shade::Text));
    assert_eq!(ansi_shade_exec(38), None);
}

#[test]
fn highlighted_json_reads_back_to_its_text() {
    colored::control::set_override(true);
    let text = "{\"a\": [1, \"x\"]}";
    let out = highlight_json(text, false);
    let back: String = parse_ansi(&out).into_iter().map(|s| s.text).collect();
    assert_eq!(back, text);
    let colors: Vec<Shade> = parse_ansi("\x1b[1;37m{\x1b[0m\x1b[36m\"\x1b[0m").into_iter().map(|s| s.color).collect();
    assert_eq!(colors, vec![Shade::Subtext, Shade::Sapphire]);
}

#[test]
fn highlighted_xml_reads_back() {
    colored::control::set_override(true);
    let out = highlight_xml("<a>t</a>", false);
    let back: String = parse_ansi(&out).into_iter().map(|s| s.text).collect();
    assert_eq!(back, "<a>t</a>");
}
