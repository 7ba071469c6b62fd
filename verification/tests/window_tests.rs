use spruce::ansi::Shade;
use spruce::window::{save_name_of, status_color, AppMode, SpruceApp};

fn runs(app: &SpruceApp) -> Vec<(String, Shade)> {
    app.output_html.iter().map(|s| (s.text.clone(), s.color)).collect()
}

#[test]
fn window_opens_ready() {
    let app = SpruceApp::default();
    assert_eq!(app.mode, AppMode::Format);
    assert_eq!(app.input, "");
    assert_eq!(app.output_raw, "");
    assert!(app.output_html.is_empty());
    assert_eq!(app.status, "Ready  🌲  Spruce up your data");
    assert_eq!(app.indent, 2);
    assert_eq!(app.format_type, "auto");
    assert_eq!(app.query_expr, "");
    assert_eq!(app.current_file, None);
    assert!(!app.output_is_error);
}

#[test]
fn blank_input_asks_for_data() {
    let mut app = SpruceApp::default();
    app.input = "  \n\t".to_string();
    app.run_action();
    assert_eq!(app.status, "⚠  Please enter some data first");
    assert_eq!(app.output_raw, "");
    assert!(!app.output_is_error);
}

#[test]
fn tree_action_shows_plain_tree() {
    let mut app = SpruceApp::default();
    app.mode = AppMode::Tree;
    app.input = "{\"a\":1}".to_string();
    app.run_action();
    let out = "{\n└── a: 1\n}\n";
    assert_eq!(app.output_raw, out);
    assert!(!app.output_is_error);
    assert_eq!(runs(&app), vec![(out.to_string(), Shade::Text)]);
    assert_eq!(app.status, format!("✓  Tree view — {} lines, {} chars", out.lines().count(), out.len()));
    assert_eq!(app.status, "✓  Tree view — 3 lines, 19 chars");
}

#[test]
fn format_action_colors_the_output() {
    colored::control::set_override(true);
    let mut app = SpruceApp::default();
    app.input = "[1]".to_string();
    app.run_action();
    let out = "\x1b[1;37m[\x1b[0m\n  \x1b[35m1\x1b[0m\n\x1b[1;37m]\x1b[0m";
    assert_eq!(app.output_raw, out);
    assert_eq!(
        runs(&app),
        vec![
            ("[".to_string(), Shade::Subtext),
            ("\n  ".to_string(), Shade::Text),
            ("1".to_string(), Shade::Mauve),
            ("\n".to_string(), Shade::Text),
            ("]".to_string(), Shade::Subtext),
        ]
    );
    assert_eq!(app.status, format!("✓  Formatted — 3 lines, {} chars", out.len()));
}

#[test]
fn type_selector_forces_the_format() {
    colored::control::set_override(false);
    let mut app = SpruceApp::default();
    app.mode = AppMode::Tree;
    app.format_type = "xml".to_string();
    app.input = "<a>t</a>".to_string();
    app.run_action();
    assert_eq!(app.output_raw, "├── a\n├── \"t\"\n");
    app.format_type = "json".to_string();
    app.run_action();
    assert!(app.output_is_error);
    assert_eq!(app.output_raw, "✖  Failed to parse JSON");
}

#[test]
fn empty_query_is_refused() {
    let mut app = SpruceApp::default();
    app.mode = AppMode::Query;
    app.input = "{\"a\":1}".to_string();
    app.query_expr = "   ".to_string();
    app.run_action();
    let msg = "✖  Type a query expression first";
    assert_eq!(app.output_raw, msg);
    assert!(app.output_is_error);
    assert_eq!(app.status, "✖  Error");
    assert_eq!(runs(&app), vec![(msg.to_string(), Shade::Red)]);
}

#[test]
fn query_action_answers() {
    colored::control::set_override(false);
    let mut app = SpruceApp::default();
    app.mode = AppMode::Query;
    app.input = "{\"a\":{\"b\":\"x\"}}".to_string();
    app.query_expr = ".a.b".to_string();
    app.run_action();
    assert_eq!(app.output_raw, "\"x\"");
    assert_eq!(app.status, "✓  Query result — 1 lines, 3 chars");
}

#[test]
fn undetected_input_shows_the_error() {
    let mut app = SpruceApp::default();
    app.input = "hello".to_string();
    app.run_action();
    assert_eq!(
        app.output_raw,
        "✖  Unable to detect format. Use --type json or --type xml to specify.\nContent starts with: \"hello\""
    );
    assert_eq!(app.status, "✖  Error");
}

#[test]
fn file_extension_decides_when_set() {
    let mut app = SpruceApp::default();
    app.mode = AppMode::Tree;
    app.current_file = Some("/data/doc.XML".to_string());
    app.input = "<r/>".to_string();
    let r = app.run_tree("<r/>", None);
    assert_eq!(r.unwrap(), "├── r (empty)\n");
}

#[test]
fn loading_a_file() {
    let mut app = SpruceApp::default();
    app.output_raw = "old".to_string();
    app.output_is_error = true;
    app.load_file("/tmp/a.json".to_string(), "a.json".to_string(), Ok("{}".to_string()));
    assert_eq!(app.input, "{}");
    assert_eq!(app.current_file, Some("/tmp/a.json".to_string()));
    assert_eq!(app.status, "📂  Loaded: a.json");
    assert_eq!(app.output_raw, "");
    assert!(!app.output_is_error);
    app.load_file("/tmp/b.json".to_string(), "b.json".to_string(), Err("No such file".to_string()));
    assert_eq!(app.status, "✖  No such file");
    assert_eq!(app.input, "{}");
    assert_eq!(app.current_file, Some("/tmp/a.json".to_string()));
}

#[test]
fn saving_output() {
    let mut app = SpruceApp::default();
    assert_eq!(app.save_target(), None);
    assert_eq!(app.status, "⚠  Nothing to save");
    app.output_raw = "x".to_string();
    assert_eq!(app.save_target(), Some("output.formatted".to_string()));
    app.current_file = Some("/tmp/data.json".to_string());
    assert_eq!(app.save_target(), Some("data.formatted".to_string()));
    app.output_is_error = true;
    assert_eq!(app.save_target(), None);
    app.save_output("/tmp/data.formatted".to_string(), Ok(()));
    assert_eq!(app.status, "💾  Saved: /tmp/data.formatted");
    app.save_output("/tmp/x".to_string(), Err("denied".to_string()));
    assert_eq!(app.status, "✖  denied");
}

#[test]
fn save_names() {
    assert_eq!(save_name_of(Some("data".to_string())), "data.formatted");
    assert_eq!(save_name_of(None), "output.formatted");
}

#[test]
fn switching_mode_clears_the_output() {
    let mut app = SpruceApp::default();
    app.input = "[1]".to_string();
    app.run_action();
    assert!(!app.output_raw.is_empty());
    app.select_mode(AppMode::Query);
    assert_eq!(app.mode, AppMode::Query);
    assert_eq!(app.output_raw, "");
    assert!(app.output_html.is_empty());
    assert_eq!(app.input, "[1]");
}

#[test]
fn clearing_and_copying() {
    let mut app = SpruceApp::default();
    app.input = "[1]".to_string();
    app.run_action();
    app.copied();
    assert_eq!(app.status, "✓  Copied");
    app.clear();
    assert_eq!(app.input, "");
    assert_eq!(app.output_raw, "");
    assert!(app.output_html.is_empty());
    assert_eq!(app.status, "Cleared");
}

#[test]
fn status_colors() {
    assert_eq!(status_color("✖  Error"), Shade::Red);
    assert_eq!(status_color("⚠  Nothing to save"), Shade::Red);
    assert_eq!(status_color("✓  Copied"), Shade::Green);
    assert_eq!(status_color("Cleared"), Shade::Subtext);
    assert_eq!(status_color(""), Shade::Subtext);
}
