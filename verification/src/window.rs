//! The desktop window: what it holds, and what each of its actions does to it.
//!
//! Drawing, file dialogs and reading and writing files belong to the front end that
//! shows the window; it hands the outcome of each to the methods here, which decide
//! what the window shows next.
use vstd::prelude::*;
use crate::ansi::{StyledSegment, Shade, Run, runs_of, ansi_runs, parse_ansi};
use crate::cli::{format_content, query_content, tree_content};
use crate::errors::{SpruceError, Failure, error_message};
use crate::format::{DataFormat, Detection, detection, detect_format, opt_view, text_lines, lines_from, format_json_result, format_xml_result, tree_json_result, tree_xml_result};
use crate::highlight::{find_from, lemma_upto};
use crate::query::{query_json_result, query_xml_result};
use crate::text::{chars_of, chars_eq, concat_chars, decimal, decimal_chars, lit, string_of, trim, trim_spec};

verus! {

/// What the window's main button does.
#[derive(Clone, Copy, Debug, PartialEq, Eq, Structural)]
pub enum AppMode {
    Format,
    Query,
    Tree,
}

/// The state of the window.
#[derive(Debug)]
pub struct SpruceApp {
    pub mode: AppMode,
    pub input: String,
    pub output_raw: String,
    pub output_html: Vec<StyledSegment>,
    pub status: String,
    pub indent: usize,
    pub format_type: String,
    pub query_expr: String,
    pub current_file: Option<String>,
    pub output_is_error: bool,
}

/// The mathematical value of a [`SpruceApp`].
pub struct AppView {
    pub mode: AppMode,
    pub input: Seq<char>,
    pub output_raw: Seq<char>,
    pub output_html: Seq<Run>,
    pub status: Seq<char>,
    pub indent: usize,
    pub format_type: Seq<char>,
    pub query_expr: Seq<char>,
    pub current_file: Option<Seq<char>>,
    pub output_is_error: bool,
}

pub open spec fn opt_text(o: Option<String>) -> Option<Seq<char>> {
    match o {
        Some(s) => Some(s@),
        None => None,
    }
}

impl View for SpruceApp {
    type V = AppView;

    open spec fn view(&self) -> AppView {
        AppView {
            mode: self.mode,
            input: self.input@,
            output_raw: self.output_raw@,
            output_html: runs_of(self.output_html@),
            status: self.status@,
            indent: self.indent,
            format_type: self.format_type@,
            query_expr: self.query_expr@,
            current_file: opt_text(self.current_file),
            output_is_error: self.output_is_error,
        }
    }
}

/// The window as it opens.
pub open spec fn opening() -> AppView {
    AppView {
        mode: AppMode::Format,
        input: seq![],
        output_raw: seq![],
        output_html: seq![],
        status: "Ready  🌲  Spruce up your data"@,
        indent: 2,
        format_type: "auto"@,
        query_expr: seq![],
        current_file: None,
        output_is_error: false,
    }
}

impl Default for SpruceApp {
    fn default() -> (res: Self)
        ensures
            res@ == opening(),
    {
        let res = SpruceApp {
            mode: AppMode::Format,
            input: String::new(),
            output_raw: String::new(),
            output_html: Vec::new(),
            status: "Ready  🌲  Spruce up your data".to_string(),
            indent: 2,
            format_type: "auto".to_string(),
            query_expr: String::new(),
            current_file: None,
            output_is_error: false,
        };
        assert(runs_of(res.output_html@) =~= seq![]);
        res
    }
}

/// The hint that the type selector gives: `json` and `xml` name a format, anything else
/// leaves the format to detection.
pub open spec fn type_hint(t: Seq<char>) -> Option<Seq<char>> {
    if t == "json"@ {
        Some("json"@)
    } else if t == "xml"@ {
        Some("xml"@)
    } else {
        None
    }
}

/// The error that detection gives where it finds no format.
pub open spec fn detection_failed(d: Detection, res: Result<String, SpruceError>) -> bool {
    match d {
        Detection::Found(_) => false,
        Detection::Unknown(l) => res matches Err(SpruceError::UnknownFormatType(m)) && m@ == l,
        Detection::Undetected(p) => res matches Err(SpruceError::UndetectedFormat(m)) && m@ == p,
    }
}

/// What formatting gives in the window: colored output with the window's indentation.
pub open spec fn format_run(v: AppView, input: Seq<char>, hint: Option<Seq<char>>, res: Result<String, SpruceError>) -> bool {
    match detection(input, v.current_file, hint) {
        Detection::Found(DataFormat::Json) => format_json_result(input, v.indent, false, res),
        Detection::Found(DataFormat::Xml) => format_xml_result(input, v.indent, false, res),
        d => detection_failed(d, res),
    }
}

/// What a query gives in the window: colored output; a query of nothing but white space
/// is refused before anything else.
pub open spec fn query_run(v: AppView, input: Seq<char>, hint: Option<Seq<char>>, res: Result<String, SpruceError>) -> bool {
    if trim_spec(v.query_expr).len() == 0 {
        res matches Err(SpruceError::EmptyQuery)
    } else {
        match detection(input, v.current_file, hint) {
            Detection::Found(DataFormat::Json) => query_json_result(input, v.query_expr, false, res),
            Detection::Found(DataFormat::Xml) => query_xml_result(input, v.query_expr, false, res),
            d => detection_failed(d, res),
        }
    }
}

/// What the tree view gives in the window: always without colors.
pub open spec fn tree_run(v: AppView, input: Seq<char>, hint: Option<Seq<char>>, res: Result<String, SpruceError>) -> bool {
    match detection(input, v.current_file, hint) {
        Detection::Found(DataFormat::Json) => tree_json_result(input, true, res),
        Detection::Found(DataFormat::Xml) => tree_xml_result(input, true, res),
        d => detection_failed(d, res),
    }
}

/// What the action of the window's mode gives for its input.
pub open spec fn mode_result(v: AppView, res: Result<String, SpruceError>) -> bool {
    let hint = type_hint(v.format_type);
    match v.mode {
        AppMode::Format => format_run(v, v.input, hint, res),
        AppMode::Query => query_run(v, v.input, hint, res),
        AppMode::Tree => tree_run(v, v.input, hint, res),
    }
}

/// How the status line names the output of a mode.
pub open spec fn mode_word(m: AppMode) -> Seq<char> {
    match m {
        AppMode::Format => "Formatted"@,
        AppMode::Query => "Query result"@,
        AppMode::Tree => "Tree view"@,
    }
}

/// The number of bytes that `str::len` reports for a text.
pub open spec fn byte_len(s: Seq<char>) -> nat {
    (vstd::utf8::encode_utf8(s).len() as usize) as nat
}

/// The status line after an action that succeeded: the mode's word, and the number of
/// lines and of bytes of the output.
pub open spec fn done_status(m: AppMode, out: Seq<char>) -> Seq<char> {
    "✓  "@ + mode_word(m) + " — "@ + decimal(text_lines(out).len()) + " lines, "@ + decimal(byte_len(out)) + " chars"@
}

/// How the window shows an error.
pub open spec fn error_text(e: Failure) -> Seq<char> {
    "✖  "@ + error_message(e)
}

/// The window after its action gave `res`: the output and its colors, or the error in red.
pub open spec fn shown_result(v: AppView, res: Result<String, SpruceError>) -> AppView {
    match res {
        Ok(out) => AppView {
            output_raw: out@,
            output_html: ansi_runs(out@),
            status: done_status(v.mode, out@),
            output_is_error: false,
            ..v
        },
        Err(e) => AppView {
            output_raw: error_text(e@),
            output_html: seq![Run { text: error_text(e@), color: Shade::Red }],
            status: "✖  Error"@,
            output_is_error: true,
            ..v
        },
    }
}

/// Whether there is output to save: some text, and not an error.
pub open spec fn has_output(v: AppView) -> bool {
    v.output_raw.len() > 0 && !v.output_is_error
}

/// The file name that saving proposes: the stem of the current file's name with
/// `.formatted` after it, or `output.formatted` where there is no stem.
pub open spec fn save_name(stem: Option<Seq<char>>) -> Seq<char> {
    match stem {
        Some(s) => s + ".formatted"@,
        None => "output.formatted"@,
    }
}

/// Whether `s` is a stretch of consecutive characters of `t`.
pub open spec fn is_stretch_of(s: Seq<char>, t: Seq<char>) -> bool {
    exists|i: int, j: int| 0 <= i <= j <= t.len() && s == t.subrange(i, j)
}

/// std: `Path::file_stem` of a path given as text, read back with `OsStr::to_str`: the
/// file name of the path's last component without its extension.  How a path splits
/// into components depends on the platform; what is stated is that the stem, where
/// there is one, is a stretch of the path.
#[verifier::external_body]
fn file_stem(path: &str) -> (res: Option<String>)
    ensures
        res matches Some(s) ==> is_stretch_of(s@, path@),
{
    std::path::Path::new(path).file_stem().and_then(|s| s.to_str()).map(|s| s.to_string())
}

/// The file name that saving proposes for a stem.
pub fn save_name_of(stem: Option<String>) -> (res: String)
    ensures
        res@ == save_name(opt_text(stem)),
{
    match stem {
        Some(s) => string_of(concat_chars(&lit(s.as_str()), &lit(".formatted")).as_slice()),
        None => "output.formatted".to_string(),
    }
}

/// The color of the status line: red for a failure or a warning, green for a success,
/// the muted text color otherwise.
pub open spec fn status_shade(status: Seq<char>) -> Shade {
    if status.len() > 0 && (status[0] == '✖' || status[0] == '⚠') {
        Shade::Red
    } else if status.len() > 0 && status[0] == '✓' {
        Shade::Green
    } else {
        Shade::Subtext
    }
}

/// The color in which the window shows its status line.
pub fn status_color(status: &str) -> (res: Shade)
    ensures
        res == status_shade(status@),
{
    let cs = chars_of(status);
    if cs.len() > 0 && (cs[0] == '✖' || cs[0] == '⚠') {
        Shade::Red
    } else if cs.len() > 0 && cs[0] == '✓' {
        Shade::Green
    } else {
        Shade::Subtext
    }
}

/// The hint of the type selector.
fn type_hint_of(t: &str) -> (res: Option<&'static str>)
    ensures
        opt_view(res) == type_hint(t@),
{
    let tc = chars_of(t);
    if chars_eq(&tc, &lit("json")) {
        Some("json")
    } else if chars_eq(&tc, &lit("xml")) {
        Some("xml")
    } else {
        None
    }
}

/// The file's path, as text.
fn file_of(f: &Option<String>) -> (res: Option<&str>)
    ensures
        opt_view(res) == opt_text(*f),
{
    match f {
        Some(p) => Some(p.as_str()),
        None => None,
    }
}

/// The number of lines that `str::lines` gives for a text.
fn line_count(s: &str) -> (res: usize)
    ensures
        res == text_lines(s@).len(),
{
    let cs = chars_of(s);
    let ghost t = cs@;
    let n = cs.len();
    let mut count: usize = 0;
    let mut p: usize = 0;
    while p < n
        invariant
            n == t.len(),
            t == cs@,
            p <= n,
            count <= p,
            text_lines(t).len() == count + lines_from(t, p as int).len(),
        decreases n - p,
    {
        proof {
            lemma_upto(t, p as int, '\n');
        }
        let k = find_from(&cs, p, '\n');
        count = count + 1;
        p = if k < n { k + 1 } else { n };
    }
    count
}

impl SpruceApp {
    /// Formats the input in the window.
    pub fn run_format(&self, input: &str, hint: Option<&str>) -> (res: Result<String, SpruceError>)
        ensures
            format_run(self@, input@, opt_view(hint), res),
    {
        let fmt = match detect_format(input, file_of(&self.current_file), hint) {
            Ok(f) => f,
            Err(e) => {
                return Err(e);
            },
        };
        format_content(fmt, input, self.indent, false)
    }

    /// Runs the window's query on the input.
    pub fn run_query(&self, input: &str, hint: Option<&str>) -> (res: Result<String, SpruceError>)
        ensures
            query_run(self@, input@, opt_view(hint), res),
    {
        if trim(self.query_expr.as_str()).is_empty() {
            return Err(SpruceError::EmptyQuery);
        }
        let fmt = match detect_format(input, file_of(&self.current_file), hint) {
            Ok(f) => f,
            Err(e) => {
                return Err(e);
            },
        };
        query_content(fmt, input, self.query_expr.as_str(), false)
    }

    /// The tree view of the input.
    pub fn run_tree(&self, input: &str, hint: Option<&str>) -> (res: Result<String, SpruceError>)
        ensures
            tree_run(self@, input@, opt_view(hint), res),
    {
        let fmt = match detect_format(input, file_of(&self.current_file), hint) {
            Ok(f) => f,
            Err(e) => {
                return Err(e);
            },
        };
        tree_content(fmt, input, true)
    }

    /// Shows what an action gave.
    pub fn show_result(&mut self, res: Result<String, SpruceError>)
        ensures
            final(self)@ == shown_result(old(self)@, res),
    {
        match res {
            Ok(out) => {
                let html = parse_ansi(out.as_str());
                let lines = line_count(out.as_str());
                let bytes = out.as_str().len();
                let word = match self.mode {
                    AppMode::Format => "Formatted",
                    AppMode::Query => "Query result",
                    AppMode::Tree => "Tree view",
                };
                let mut st = concat_chars(&lit("✓  "), &lit(word));
                st = concat_chars(&st, &lit(" — "));
                st = concat_chars(&st, &decimal_chars(lines));
                st = concat_chars(&st, &lit(" lines, "));
                st = concat_chars(&st, &decimal_chars(bytes));
                st = concat_chars(&st, &lit(" chars"));
                self.output_raw = out;
                self.output_is_error = false;
                self.output_html = html;
                self.status = string_of(st.as_slice());
            },
            Err(e) => {
                let msg = concat_chars(&lit("✖  "), &lit(e.message().as_str()));
                self.output_raw = string_of(msg.as_slice());
                self.output_is_error = true;
                let mut html: Vec<StyledSegment> = Vec::new();
                html.push(StyledSegment { text: string_of(msg.as_slice()), color: Shade::Red });
                self.output_html = html;
                self.status = "✖  Error".to_string();
                assert(runs_of(self.output_html@) =~= seq![Run { text: msg@, color: Shade::Red }]);
            },
        }
    }

    /// Runs the action of the window's mode on its input and shows what it gave; with an
    /// input of nothing but white space, asks for data instead.
    pub fn run_action(&mut self)
        ensures
            if trim_spec(old(self)@.input).len() == 0 {
                final(self)@ == (AppView { status: "⚠  Please enter some data first"@, ..old(self)@ })
            } else {
                exists|res: Result<String, SpruceError>|
                    #[trigger] mode_result(old(self)@, res) && final(self)@ == shown_result(old(self)@, res)
            },
    {
        if trim(self.input.as_str()).is_empty() {
            self.status = "⚠  Please enter some data first".to_string();
            return;
        }
        let ghost before = self@;
        let hint = type_hint_of(self.format_type.as_str());
        let result = match self.mode {
            AppMode::Format => self.run_format(self.input.as_str(), hint),
            AppMode::Query => self.run_query(self.input.as_str(), hint),
            AppMode::Tree => self.run_tree(self.input.as_str(), hint),
        };
        assert(mode_result(before, result));
        self.show_result(result);
    }
    /// Takes in a file that the front end read for the window: `read` holds its text, or
    /// the message of the failed read; `path` is the file's path as shown and `name` its
    /// file name.
    pub fn load_file(&mut self, path: String, name: String, read: Result<String, String>)
        ensures
            match read {
                Ok(content) => final(self)@ == (AppView {
                    input: content@,
                    current_file: Some(path@),
                    status: "📂  Loaded: "@ + name@,
                    output_raw: seq![],
                    output_html: seq![],
                    output_is_error: false,
                    ..old(self)@
                }),
                Err(m) => final(self)@ == (AppView { status: "✖  "@ + m@, ..old(self)@ }),
            },
    {
        match read {
            Ok(content) => {
                self.input = content;
                self.current_file = Some(path);
                self.status = string_of(concat_chars(&lit("📂  Loaded: "), &lit(name.as_str())).as_slice());
                self.output_raw = String::new();
                self.output_html = Vec::new();
                self.output_is_error = false;
                assert(runs_of(self.output_html@) =~= seq![]);
            },
            Err(m) => {
                self.status = string_of(concat_chars(&lit("✖  "), &lit(m.as_str())).as_slice());
            },
        }
    }

    /// The file name to propose for saving the output.  Without output to save, the
    /// status says so and nothing is proposed.
    pub fn save_target(&mut self) -> (res: Option<String>)
        ensures
            !has_output(old(self)@) ==> res is None && final(self)@ == (AppView {
                status: "⚠  Nothing to save"@,
                ..old(self)@
            }),
            has_output(old(self)@) ==> final(self)@ == old(self)@ && (res matches Some(n) && exists|stem: Option<Seq<char>>|
                #[trigger] save_name(stem) == n@ && (stem matches Some(st) ==> (old(self)@.current_file matches Some(p)
                    && is_stretch_of(st, p)))),
    {
        if self.output_raw.as_str().is_empty() || self.output_is_error {
            self.status = "⚠  Nothing to save".to_string();
            return None;
        }
        let stem = match &self.current_file {
            Some(p) => file_stem(p.as_str()),
            None => None,
        };
        let ghost st = opt_text(stem);
        let name = save_name_of(stem);
        assert(save_name(st) == name@);
        Some(name)
    }

    /// Takes in the outcome of saving the output to `path`: `written` is the message of
    /// the failed write, if it failed.
    pub fn save_output(&mut self, path: String, written: Result<(), String>)
        ensures
            match written {
                Ok(()) => final(self)@ == (AppView { status: "💾  Saved: "@ + path@, ..old(self)@ }),
                Err(m) => final(self)@ == (AppView { status: "✖  "@ + m@, ..old(self)@ }),
            },
    {
        match written {
            Ok(()) => {
                self.status = string_of(concat_chars(&lit("💾  Saved: "), &lit(path.as_str())).as_slice());
            },
            Err(m) => {
                self.status = string_of(concat_chars(&lit("✖  "), &lit(m.as_str())).as_slice());
            },
        }
    }
    /// Switches the window to another mode, clearing the output.
    pub fn select_mode(&mut self, mode: AppMode)
        ensures
            final(self)@ == (AppView { mode, output_raw: seq![], output_html: seq![], ..old(self)@ }),
    {
        self.mode = mode;
        self.output_raw = String::new();
        self.output_html = Vec::new();
        assert(runs_of(self.output_html@) =~= seq![]);
    }

    /// Clears the input and the output.
    pub fn clear(&mut self)
        ensures
            final(self)@ == (AppView {
                input: seq![],
                output_raw: seq![],
                output_html: seq![],
                status: "Cleared"@,
                ..old(self)@
            }),
    {
        self.input = String::new();
        self.output_raw = String::new();
        self.output_html = Vec::new();
        self.status = "Cleared".to_string();
        assert(runs_of(self.output_html@) =~= seq![]);
    }

    /// Notes in the status line that the front end copied the output.
    pub fn copied(&mut self)
        ensures
            final(self)@ == (AppView { status: "✓  Copied"@, ..old(self)@ }),
    {
        self.status = "✓  Copied".to_string();
    }
}

} // verus!
