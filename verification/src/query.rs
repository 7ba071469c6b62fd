//! Queries: dot-notation paths into JSON, XPath-like paths into XML.
use vstd::prelude::*;
use serde_json::Value;
use crate::errors::{SpruceError, Failure};
use crate::highlight::{highlight_json, json_spans, upto, sub_chars, find_from, lemma_upto};
use crate::json::{
    JsonData, JsonKind, kind_of, kind_word, json_model, models, object_entries, array_items, has_key, value_at,
    parsed_json, pretty_json, json_from_str, json_to_string_pretty, json_kind, json_get, json_items,
    json_entries, json_clone, json_array, json_string, json_map_new, json_map_insert, json_object,
    map_model, keys_sorted, sorted_insert, lemma_sorted_insert,
};
use crate::paint::is_rendering;
use crate::text::{chars_of, string_of, trim, trim_spec};
use crate::xml::{XmlEvent, XmlKind, xml_events, pending_events, well_ended, is_terminal, tag_name, tag_attributes, xml_reader, xml_read_event, xml_attributes};
use crate::highlight::{event_text, tag_name_of};

verus! {

// ---------------------------------------------------------------------------
// Integers
// ---------------------------------------------------------------------------

pub open spec fn digit_value(c: char) -> int {
    (c as u32) as int - ('0' as u32) as int
}

/// The value of a sequence of decimal digits.
pub open spec fn digits_value(s: Seq<char>) -> int
    decreases s.len(),
{
    if s.len() == 0 {
        0
    } else {
        digits_value(s.drop_last()) * 10 + digit_value(s.last())
    }
}

pub open spec fn all_digits(s: Seq<char>) -> bool {
    forall|i: int| 0 <= i < s.len() ==> crate::highlight::is_digit(#[trigger] s[i])
}

/// What `str::parse::<isize>` gives: an optional sign and at least one decimal digit,
/// nothing else, of a value that an `isize` holds.
pub open spec fn parsed_isize(s: Seq<char>) -> Option<isize> {
    if s.len() == 0 {
        None
    } else {
        let neg = s[0] == '-';
        let digits = if s[0] == '-' || s[0] == '+' { s.skip(1) } else { s };
        if digits.len() == 0 || !all_digits(digits) {
            None
        } else {
            let v = if neg { -digits_value(digits) } else { digits_value(digits) };
            if isize::MIN <= v <= isize::MAX {
                Some(v as isize)
            } else {
                None
            }
        }
    }
}

/// std: `str::parse::<isize>`, which reads an optional `+` or `-` followed by decimal
/// digits and nothing else, and fails where the value does not fit.
#[verifier::external_body]
fn parse_isize(s: &str) -> (res: Option<isize>)
    ensures
        res == parsed_isize(s@),
{
    s.parse::<isize>().ok()
}

// ---------------------------------------------------------------------------
// JSON paths
// ---------------------------------------------------------------------------

/// One step of a JSON path.
#[derive(Debug)]
pub enum PathSegment {
    Key(String),
    Index(isize),
    Wildcard,
}

/// The mathematical value of a [`PathSegment`].
pub enum Step {
    Key(Seq<char>),
    Index(isize),
    Wildcard,
}

impl View for PathSegment {
    type V = Step;

    open spec fn view(&self) -> Step {
        match self {
            PathSegment::Key(k) => Step::Key(k@),
            PathSegment::Index(i) => Step::Index(*i),
            PathSegment::Wildcard => Step::Wildcard,
        }
    }
}

pub open spec fn steps_of(v: Seq<PathSegment>) -> Seq<Step> {
    v.map_values(|p: PathSegment| p@)
}

/// The step that a pending key makes: none for an empty key, a wildcard for `*`.
pub open spec fn flush(key: Seq<char>) -> Seq<Step> {
    if key.len() == 0 {
        seq![]
    } else if key == seq!['*'] {
        seq![Step::Wildcard]
    } else {
        seq![Step::Key(key)]
    }
}

/// `s` without the quotes it begins and ends with.
pub open spec fn trim_quotes(s: Seq<char>) -> Seq<char>
    decreases s.len(),
{
    if s.len() > 0 && s[0] == '\'' {
        trim_quotes(s.skip(1))
    } else if s.len() > 0 && s.last() == '\'' {
        trim_quotes(s.drop_last())
    } else {
        s
    }
}

/// The step of a bracket holding `inner`: `[*]` a wildcard, `[n]` an index, `['k']` or
/// `[k]` a key; empty brackets make none.
pub open spec fn bracket_step(inner: Seq<char>) -> Seq<Step> {
    if inner == seq!['*'] {
        seq![Step::Wildcard]
    } else if parsed_isize(inner) is Some {
        seq![Step::Index(parsed_isize(inner)->0)]
    } else if inner.len() > 0 {
        seq![Step::Key(trim_quotes(inner))]
    } else {
        seq![]
    }
}

/// Where the scan of a path goes on after a bracket that opens at `p`: after its `]`, or
/// the end of the path.
pub open spec fn after_bracket(s: Seq<char>, p: int) -> int {
    let end = upto(s, p, ']');
    if end < s.len() {
        end + 1
    } else {
        s.len() as int
    }
}

/// The steps of a path from position `p` on, with `key` pending: dots end keys,
/// brackets hold indices, wildcards or quoted keys.
pub open spec fn path_steps(s: Seq<char>, p: int, key: Seq<char>) -> Seq<Step>
    decreases s.len() - p,
{
    if p < 0 || p >= s.len() {
        flush(key)
    } else if s[p] == '.' {
        flush(key) + path_steps(s, p + 1, seq![])
    } else if s[p] == '[' {
        let end = upto(s, p, ']');
        let next = after_bracket(s, p);
        if p < next <= s.len() && p < end {
            flush(key) + bracket_step(s.subrange(p + 1, end)) + path_steps(s, next, seq![])
        } else {
            flush(key)
        }
    } else {
        path_steps(s, p + 1, key.push(s[p]))
    }
}

proof fn lemma_after_bracket(s: Seq<char>, p: int)
    requires
        0 <= p < s.len(),
        s[p] == '[',
    ensures
        p < upto(s, p, ']') || upto(s, p, ']') == s.len(),
        p < upto(s, p, ']'),
        p < after_bracket(s, p) <= s.len(),
{
    lemma_upto(s, p + 1, ']');
    assert(upto(s, p, ']') == upto(s, p + 1, ']'));
}

/// Splits a JSON path into its steps.
pub fn parse_json_path(path: &str) -> (res: Vec<PathSegment>)
    ensures
        steps_of(res@) == path_steps(path@, 0, seq![]),
{
    let cs = chars_of(path);
    let ghost s = cs@;
    let n = cs.len();
    let mut segs: Vec<PathSegment> = Vec::new();
    let mut key: Vec<char> = Vec::new();
    let mut p: usize = 0;
    assert(steps_of(segs@) =~= seq![]);
    while p < n
        invariant
            n == s.len(),
            s == cs@,
            p <= n,
            steps_of(segs@) + path_steps(s, p as int, key@) == path_steps(s, 0, seq![]),
        decreases n - p,
    {
        let ghost before = steps_of(segs@);
        let ghost k0 = key@;
        if cs[p] == '.' {
            flush_key(&mut segs, &mut key);
            p = p + 1;
            proof {
                assert(before + path_steps(s, p - 1, k0) =~= steps_of(segs@) + path_steps(s, p as int, key@));
            }
        } else if cs[p] == '[' {
            proof {
                lemma_after_bracket(s, p as int);
            }
            flush_key(&mut segs, &mut key);
            let end = find_from(&cs, p, ']');
            let inner = sub_chars(&cs, p + 1, end);
            push_bracket_step(&mut segs, &inner);
            let old_p = p;
            p = if end < n { end + 1 } else { n };
            proof {
                assert(p == after_bracket(s, old_p as int));
                assert(before + path_steps(s, old_p as int, k0) =~= steps_of(segs@) + path_steps(s, p as int, key@));
            }
        } else {
            key.push(cs[p]);
            p = p + 1;
        }
    }
    flush_key(&mut segs, &mut key);
    assert(steps_of(segs@) =~= path_steps(s, 0, seq![]));
    segs
}

fn push_segment(segs: &mut Vec<PathSegment>, seg: PathSegment)
    ensures
        steps_of(final(segs)@) == steps_of(old(segs)@).push(seg@),
{
    let ghost before = segs@;
    segs.push(seg);
    assert(steps_of(segs@) =~= steps_of(before).push(seg@));
}

/// Turns the pending key into a step, and empties it.
fn flush_key(segs: &mut Vec<PathSegment>, key: &mut Vec<char>)
    ensures
        steps_of(final(segs)@) == steps_of(old(segs)@) + flush(old(key)@),
        final(key)@ == Seq::<char>::empty(),
{
    let ghost before = steps_of(segs@);
    if key.len() > 0 {
        if key.len() == 1 && key[0] == '*' {
            assert(key@ =~= seq!['*']);
            push_segment(segs, PathSegment::Wildcard);
        } else {
            assert(key@ != seq!['*']) by {
                if key@ == seq!['*'] {
                    assert(key@.len() == 1);
                }
            }
            push_segment(segs, PathSegment::Key(string_of(key.as_slice())));
        }
    }
    assert(steps_of(segs@) =~= before + flush(key@));
    *key = Vec::new();
}

/// `cs` without the quotes it begins and ends with.
fn trim_quotes_chars(cs: &Vec<char>) -> (res: Vec<char>)
    ensures
        res@ == trim_quotes(cs@),
{
    let mut a: usize = 0;
    let mut b: usize = cs.len();
    assert(cs@.subrange(0, cs@.len() as int) =~= cs@);
    while a < b && cs[a] == '\''
        invariant
            a <= b == cs@.len(),
            trim_quotes(cs@) == trim_quotes(cs@.subrange(a as int, b as int)),
        decreases b - a,
    {
        assert(cs@.subrange(a as int, b as int).skip(1) =~= cs@.subrange(a + 1, b as int));
        a = a + 1;
    }
    while a < b && cs[b - 1] == '\''
        invariant
            a <= b <= cs@.len(),
            a == b || cs@[a as int] != '\'',
            trim_quotes(cs@) == trim_quotes(cs@.subrange(a as int, b as int)),
        decreases b - a,
    {
        assert(cs@.subrange(a as int, b as int).drop_last() =~= cs@.subrange(a as int, b - 1));
        b = b - 1;
    }
    sub_chars(cs, a, b)
}

/// Adds the step of a bracket holding `inner`.
fn push_bracket_step(segs: &mut Vec<PathSegment>, inner: &Vec<char>)
    ensures
        steps_of(final(segs)@) == steps_of(old(segs)@) + bracket_step(inner@),
{
    let ghost before = steps_of(segs@);
    let star = inner.len() == 1 && inner[0] == '*';
    if star {
        assert(inner@ =~= seq!['*']);
        push_segment(segs, PathSegment::Wildcard);
    } else {
        assert(inner@ != seq!['*']) by {
            if inner@ == seq!['*'] {
                assert(inner@.len() == 1);
            }
        }
        let s = string_of(inner.as_slice());
        match parse_isize(s.as_str()) {
            Some(n) => {
                push_segment(segs, PathSegment::Index(n));
            },
            None => {
                if inner.len() > 0 {
                    let k = trim_quotes_chars(inner);
                    push_segment(segs, PathSegment::Key(string_of(k.as_slice())));
                }
            },
        }
    }
    assert(steps_of(segs@) =~= before + bracket_step(inner@));
}

// ---------------------------------------------------------------------------
// JSON queries
// ---------------------------------------------------------------------------

/// `s` without the dots it begins with.
pub open spec fn strip_dots(s: Seq<char>) -> Seq<char>
    decreases s.len(),
{
    if s.len() > 0 && s[0] == '.' {
        strip_dots(s.skip(1))
    } else {
        s
    }
}

/// Whether a trimmed query asks for the whole value: it is empty, `.` or `$`.
pub open spec fn whole_query(q: Seq<char>) -> bool {
    q.len() == 0 || q == seq!['.'] || q == seq!['$']
}

/// The path of a trimmed query: a leading `$` and then a `.` are dropped; a path that
/// then starts with a bracket or a dot loses its leading dots.
pub open spec fn query_path(q: Seq<char>) -> Seq<char> {
    let p1 = if q.len() > 0 && q[0] == '$' { q.skip(1) } else { q };
    let p2 = if p1.len() > 0 && p1[0] == '.' { p1.skip(1) } else { p1 };
    if p2.len() > 0 && (p2[0] == '[' || p2[0] == '.') {
        strip_dots(p2)
    } else {
        p2
    }
}

/// The values that a wildcard ranges over: an object's values, in the order of its
/// entries, or an array's items.
pub open spec fn child_values(d: JsonData) -> Seq<JsonData> {
    match d {
        JsonData::Object(es) => es.map_values(|e: (Seq<char>, JsonData)| e.1),
        JsonData::Array(items) => items,
        _ => seq![],
    }
}

/// The steps from the `i`-th on applied to JSON data: a key selects an object's entry,
/// an index an array's item (a negative one counted from the end), and a wildcard
/// applies the steps after it to each value of an object or item of an array, giving
/// the array of the results (or the first error).
pub open spec fn eval_steps(d: JsonData, steps: Seq<Step>, i: int) -> Result<JsonData, Failure>
    decreases steps.len() - i, 0nat, 0nat,
{
    if i < 0 || i >= steps.len() {
        Ok(d)
    } else {
        match steps[i] {
            Step::Key(k) => match d {
                JsonData::Object(es) => if has_key(es, k) {
                    eval_steps(value_at(es, k), steps, i + 1)
                } else {
                    Err(Failure::KeyNotFound(k))
                },
                _ => Err(Failure::KeyOnNonObject(kind_of(d), k)),
            },
            Step::Index(n) => match d {
                JsonData::Array(items) => {
                    if n < 0 && items.len() == 0 {
                        Err(Failure::IndexEmptyArray(n))
                    } else {
                        let idx = if n < 0 { items.len() + n } else { n as int };
                        if idx < 0 || idx >= items.len() {
                            Err(Failure::IndexOutOfBounds(idx as isize, items.len() as usize))
                        } else {
                            eval_steps(items[idx], steps, i + 1)
                        }
                    }
                },
                _ => Err(Failure::IndexOnNonArray(kind_of(d), n)),
            },
            Step::Wildcard => match d {
                JsonData::Object(_) | JsonData::Array(_) => match eval_all(child_values(d), steps, i + 1) {
                    Ok(rs) => Ok(JsonData::Array(rs)),
                    Err(e) => Err(e),
                },
                _ => Err(Failure::WildcardOnScalar(kind_of(d))),
            },
        }
    }
}

/// The steps from the `i`-th on applied to each of `xs`, in order: the results, or the
/// first error.
pub open spec fn eval_all(xs: Seq<JsonData>, steps: Seq<Step>, i: int) -> Result<Seq<JsonData>, Failure>
    decreases steps.len() - i, 1nat, xs.len(),
{
    if xs.len() == 0 {
        Ok(seq![])
    } else {
        match eval_all(xs.drop_last(), steps, i) {
            Err(e) => Err(e),
            Ok(rs) => match eval_steps(xs.last(), steps, i) {
                Err(e) => Err(e),
                Ok(r) => Ok(rs.push(r)),
            },
        }
    }
}

/// The result of a JSON query on JSON data.
pub open spec fn json_query(d: JsonData, query: Seq<char>) -> Result<JsonData, Failure> {
    let q = trim_spec(query);
    if whole_query(q) {
        Ok(d)
    } else {
        eval_steps(d, path_steps(query_path(q), 0, seq![]), 0)
    }
}

pub open spec fn value_result(r: Result<Value, SpruceError>) -> Result<JsonData, Failure> {
    match r {
        Ok(v) => Ok(json_model(v)),
        Err(e) => Err(e@),
    }
}

/// `q` without its leading dots.
fn strip_dots_chars(q: &Vec<char>, from: usize) -> (res: Vec<char>)
    requires
        from <= q@.len(),
    ensures
        res@ == strip_dots(q@.skip(from as int)),
{
    let mut a = from;
    assert(q@.skip(from as int) =~= q@.subrange(from as int, q@.len() as int));
    while a < q.len() && q[a] == '.'
        invariant
            from <= a <= q@.len(),
            strip_dots(q@.skip(from as int)) == strip_dots(q@.skip(a as int)),
        decreases q@.len() - a,
    {
        assert(q@.skip(a as int).skip(1) =~= q@.skip(a + 1));
        a = a + 1;
    }
    let r = sub_chars(q, a, q.len());
    assert(r@ =~= q@.skip(a as int));
    r
}

/// The path of a trimmed query, as [`query_path`] says.
fn path_of_query(q: &Vec<char>) -> (res: Vec<char>)
    ensures
        res@ == query_path(q@),
{
    let p1_from: usize = if q.len() > 0 && q[0] == '$' { 1 } else { 0 };
    let p2: Vec<char> = if p1_from < q.len() && q[p1_from] == '.' {
        sub_chars(q, p1_from + 1, q.len())
    } else {
        sub_chars(q, p1_from, q.len())
    };
    proof {
        let p1 = if q@.len() > 0 && q@[0] == '$' { q@.skip(1) } else { q@ };
        assert(p1 =~= q@.skip(p1_from as int));
        if p1.len() > 0 && p1[0] == '.' {
            assert(p1.skip(1) =~= q@.subrange(p1_from + 1, q@.len() as int));
        }
    }
    if p2.len() > 0 && (p2[0] == '[' || p2[0] == '.') {
        let r = strip_dots_chars(&p2, 0);
        assert(p2@.skip(0) =~= p2@);
        r
    } else {
        p2
    }
}

fn is_whole_query(q: &Vec<char>) -> (res: bool)
    ensures
        res == whole_query(q@),
{
    if q.len() == 0 {
        return true;
    }
    if q.len() == 1 && (q[0] == '.' || q[0] == '$') {
        assert(q@ =~= seq![q@[0]]);
        return true;
    }
    assert(q@ != seq!['.'] && q@ != seq!['$']) by {
        if q@ == seq!['.'] || q@ == seq!['$'] {
            assert(q@.len() == 1);
        }
    }
    false
}

/// The word by which messages name the kind of a value.
pub fn current_type(value: &Value) -> (res: &'static str)
    ensures
        res@ == kind_word(kind_of(json_model(*value))),
{
    json_kind(value).as_str()
}

/// Once some of the first values give an error, all of them give that error.
proof fn lemma_eval_all_prefix(xs: Seq<JsonData>, steps: Seq<Step>, i: int, k: int)
    requires
        0 <= k <= xs.len(),
        eval_all(xs.take(k), steps, i) is Err,
    ensures
        eval_all(xs, steps, i) == eval_all(xs.take(k), steps, i),
    decreases xs.len(),
{
    if k == xs.len() {
        assert(xs.take(k) =~= xs);
    } else {
        assert(xs.drop_last().take(k) =~= xs.take(k));
        lemma_eval_all_prefix(xs.drop_last(), steps, i, k);
    }
}

/// The values that a wildcard ranges over.
fn children_of(value: &Value) -> (res: Vec<&Value>)
    requires
        json_model(*value) is Object || json_model(*value) is Array,
    ensures
        res@.len() == child_values(json_model(*value)).len(),
        forall|k: int| 0 <= k < res@.len() ==> json_model(*(#[trigger] res@[k])) == child_values(json_model(*value))[k],
{
    let ghost d = json_model(*value);
    let mut out: Vec<&Value> = Vec::new();
    if let JsonKind::Object = json_kind(value) {
        let entries = json_entries(value);
        let mut j: usize = 0;
        while j < entries.len()
            invariant
                d == json_model(*value),
                d is Object,
                entries@.len() == object_entries(d).len(),
                forall|k: int|
                    0 <= k < entries@.len() ==> json_model(*(#[trigger] entries@[k]).1) == object_entries(d)[k].1,
                j <= entries@.len(),
                out@.len() == j,
                forall|k: int| 0 <= k < j ==> json_model(*(#[trigger] out@[k])) == child_values(d)[k],
            decreases entries@.len() - j,
        {
            out.push(entries[j].1);
            j = j + 1;
        }
    } else {
        let items = json_items(value);
        let mut j: usize = 0;
        while j < items.len()
            invariant
                d == json_model(*value),
                d == JsonData::Array(models(items@)),
                j <= items@.len(),
                out@.len() == j,
                forall|k: int| 0 <= k < j ==> json_model(*(#[trigger] out@[k])) == child_values(d)[k],
            decreases items@.len() - j,
        {
            out.push(&items[j]);
            j = j + 1;
        }
    }
    out
}

/// The steps from the `i`-th on applied to a value.
fn eval_from(value: &Value, segs: &Vec<PathSegment>, i: usize) -> (res: Result<Value, SpruceError>)
    requires
        i <= segs@.len(),
    ensures
        value_result(res) == eval_steps(json_model(*value), steps_of(segs@), i as int),
    decreases segs@.len() - i,
{
    let ghost steps = steps_of(segs@);
    let ghost d = json_model(*value);
    if i >= segs.len() {
        return Ok(json_clone(value));
    }
    assert(steps[i as int] == segs@[i as int]@);
    match &segs[i] {
        PathSegment::Key(k) => {
            match json_kind(value) {
                JsonKind::Object => {
                    match json_get(value, k.as_str()) {
                        Some(v) => eval_from(v, segs, i + 1),
                        None => Err(SpruceError::KeyNotFound(k.clone())),
                    }
                },
                kind => Err(SpruceError::KeyOnNonObject(kind, k.clone())),
            }
        },
        PathSegment::Index(n) => {
            let n = *n;
            match json_kind(value) {
                JsonKind::Array => {
                    let items = json_items(value);
                    let len = items.len();
                    if n < 0 && len == 0 {
                        return Err(SpruceError::IndexEmptyArray(n));
                    }
                    let idx: i128 = if n < 0 { len as i128 + n as i128 } else { n as i128 };
                    if idx < 0 || idx >= len as i128 {
                        return Err(SpruceError::IndexOutOfBounds(idx as isize, len));
                    }
                    proof {
                        assert(json_model(items@[idx as int]) == array_items(d)[idx as int]);
                    }
                    eval_from(&items[idx as usize], segs, i + 1)
                },
                kind => Err(SpruceError::IndexOnNonArray(kind, n)),
            }
        },
        PathSegment::Wildcard => {
            match json_kind(value) {
                JsonKind::Object | JsonKind::Array => {},
                kind => {
                    return Err(SpruceError::WildcardOnScalar(kind));
                },
            }
            assert(d is Object || d is Array);
            let kids = children_of(value);
            let ghost xs = child_values(d);
            let next = i + 1;
            let mut out: Vec<Value> = Vec::new();
            let mut j: usize = 0;
            assert(xs.take(0) =~= seq![]);
            assert(models(out@) =~= seq![]);
            while j < kids.len()
                invariant
                    next == i + 1,
                    next <= segs@.len(),
                    steps == steps_of(segs@),
                    steps[i as int] == Step::Wildcard,
                    d == json_model(*value),
                    xs == child_values(d),
                    kids@.len() == xs.len(),
                    forall|k: int| 0 <= k < kids@.len() ==> json_model(*(#[trigger] kids@[k])) == xs[k],
                    j <= kids@.len(),
                    eval_all(xs.take(j as int), steps, i + 1) == Ok::<Seq<JsonData>, Failure>(models(out@)),
                decreases kids@.len() - j,
            {
                let r = eval_from(kids[j], segs, next);
                proof {
                    assert(xs.take(j + 1).drop_last() =~= xs.take(j as int));
                    assert(xs.take(j + 1).last() == xs[j as int]);
                }
                match r {
                    Ok(v) => {
                        let ghost before = out@;
                        out.push(v);
                        assert(models(out@) =~= models(before).push(json_model(v)));
                    },
                    Err(e) => {
                        proof {
                            assert(eval_steps(xs[j as int], steps, i + 1) == Err::<JsonData, Failure>(e@));
                            assert(eval_all(xs.take(j + 1), steps, i + 1) == Err::<Seq<JsonData>, Failure>(e@));
                            lemma_eval_all_prefix(xs, steps, i + 1, j + 1);
                        }
                        return Err(e);
                    },
                }
                j = j + 1;
            }
            assert(xs.take(kids@.len() as int) =~= xs);
            Ok(json_array(out))
        },
    }
}

/// Evaluates a JSON query against a JSON value.
pub fn evaluate_json_query(value: &Value, query: &str) -> (res: Result<Value, SpruceError>)
    ensures
        value_result(res) == json_query(json_model(*value), query@),
{
    let q = chars_of(trim(query));
    if is_whole_query(&q) {
        return Ok(json_clone(value));
    }
    let path = path_of_query(&q);
    let path_s = string_of(path.as_slice());
    let segs = parse_json_path(path_s.as_str());
    eval_from(value, &segs, 0)
}

/// What [`query_json`] gives.
pub open spec fn query_json_result(content: Seq<char>, query: Seq<char>, no_color: bool, res: Result<String, SpruceError>) -> bool {
    match parsed_json(content) {
        None => res matches Err(SpruceError::JsonParse),
        Some(d) => match json_query(d, query) {
            Err(f) => res matches Err(e) && e@ == f,
            Ok(r) => res matches Ok(out) && (if no_color {
                out@ == pretty_json(r)
            } else {
                is_rendering(json_spans(pretty_json(r)), out@)
            }),
        },
    }
}

/// Evaluates a JSON query against JSON text and pretty-prints the result; with colors
/// unless `no_color`.
pub fn query_json(content: &str, query: &str, no_color: bool) -> (res: Result<String, SpruceError>)
    ensures
        query_json_result(content@, query@, no_color, res),
{
    let value = match json_from_str(content) {
        Ok(v) => v,
        Err(_) => {
            return Err(SpruceError::JsonParse);
        },
    };
    let result = evaluate_json_query(&value, query)?;
    let formatted = match json_to_string_pretty(&result) {
        Ok(s) => s,
        Err(_) => {
            return Err(SpruceError::QueryResultSerialize);
        },
    };
    Ok(highlight_json(formatted.as_str(), no_color))
}

// ---------------------------------------------------------------------------
// XML trees
// ---------------------------------------------------------------------------

/// An element of an XML document: its name, its text, its attributes (each key once)
/// and its child elements.
#[derive(Debug)]
pub struct XmlNode {
    pub name: String,
    pub text: String,
    pub attrs: Vec<(String, String)>,
    pub children: Vec<XmlNode>,
}

/// The mathematical value of an [`XmlNode`].
#[verifier::ext_equal]
pub struct NodeView {
    pub name: Seq<char>,
    pub text: Seq<char>,
    pub attrs: Seq<(Seq<char>, Seq<char>)>,
    pub children: Seq<NodeView>,
}

pub open spec fn pair_view(p: (String, String)) -> (Seq<char>, Seq<char>) {
    (p.0@, p.1@)
}

pub open spec fn node_view(n: XmlNode) -> NodeView
    decreases n, 1nat, 0nat,
{
    NodeView {
        name: n.name@,
        text: n.text@,
        attrs: n.attrs@.map_values(|p: (String, String)| pair_view(p)),
        children: children_view(n, 0),
    }
}

/// The values of the children of `n` from the `i`-th on.
pub open spec fn children_view(n: XmlNode, i: nat) -> Seq<NodeView>
    decreases n, 0nat, n.children@.len() - i,
{
    if i < n.children@.len() {
        proof {
            assert(decreases_to!(n => n.children));
            assert(decreases_to!(n.children => n.children@));
        }
        seq![node_view(n.children@[i as int])] + children_view(n, i + 1)
    } else {
        seq![]
    }
}

/// The values of the children of `n`, one for each.
pub proof fn lemma_children_view(n: XmlNode, i: nat)
    requires
        i <= n.children@.len(),
    ensures
        children_view(n, i) =~= Seq::new(
            (n.children@.len() - i) as nat,
            |j: int| node_view(n.children@[i + j]),
        ),
    decreases n.children@.len() - i,
{
    if i < n.children@.len() {
        lemma_children_view(n, i + 1);
    }
}

pub open spec fn empty_node(name: Seq<char>) -> NodeView {
    NodeView { name, text: seq![], attrs: seq![], children: seq![] }
}

/// The attribute list after setting `k` to `v`: the value of an attribute with that key
/// is replaced, else the attribute is added at the end.
pub open spec fn attr_insert(attrs: Seq<(Seq<char>, Seq<char>)>, k: Seq<char>, v: Seq<char>) -> Seq<(Seq<char>, Seq<char>)>
    decreases attrs.len(),
{
    if attrs.len() == 0 {
        seq![(k, v)]
    } else if attrs[0].0 == k {
        seq![(k, v)] + attrs.skip(1)
    } else {
        seq![attrs[0]] + attr_insert(attrs.skip(1), k, v)
    }
}

/// The attributes set one after the other.
pub open spec fn attrs_set(list: Seq<(Seq<char>, Seq<char>)>) -> Seq<(Seq<char>, Seq<char>)>
    decreases list.len(),
{
    if list.len() == 0 {
        seq![]
    } else {
        attr_insert(attrs_set(list.drop_last()), list.last().0, list.last().1)
    }
}

/// The value of the attribute with key `k`.
pub open spec fn attr_lookup(attrs: Seq<(Seq<char>, Seq<char>)>, k: Seq<char>) -> Option<Seq<char>>
    decreases attrs.len(),
{
    if attrs.len() == 0 {
        None
    } else if attrs[0].0 == k {
        Some(attrs[0].1)
    } else {
        attr_lookup(attrs.skip(1), k)
    }
}

/// The element that a start or empty tag with the given content opens.
pub open spec fn tag_node(c: Seq<char>) -> NodeView {
    NodeView {
        name: tag_name(c),
        text: seq![],
        attrs: attrs_set(tag_attributes(c, tag_name(c))),
        children: seq![],
    }
}

pub open spec fn with_child(n: NodeView, c: NodeView) -> NodeView {
    NodeView { children: n.children.push(c), ..n }
}

/// A finished element goes to the innermost open element, or to the root.
pub open spec fn attach(root: NodeView, stack: Seq<NodeView>, node: NodeView) -> (NodeView, Seq<NodeView>) {
    if stack.len() > 0 {
        (root, stack.update(stack.len() - 1, with_child(stack.last(), node)))
    } else {
        (with_child(root, node), stack)
    }
}

/// The tree built from the `i`-th event on, with `root` and the open elements `stack`:
/// start tags open elements, end tags close the innermost one, empty tags add closed
/// elements, and a text that is not blank becomes, trimmed, the text of the innermost
/// open element.  Elements still open at the end of input are dropped.
pub open spec fn bt_from(evs: Seq<XmlEvent>, i: int, root: NodeView, stack: Seq<NodeView>) -> Result<NodeView, Seq<char>>
    decreases evs.len() - i,
{
    if 0 <= i < evs.len() {
        let e = evs[i];
        let c = e.content@;
        match e.kind {
            XmlKind::Start => bt_from(evs, i + 1, root, stack.push(tag_node(c))),
            XmlKind::End => if stack.len() > 0 {
                let r = attach(root, stack.drop_last(), stack.last());
                bt_from(evs, i + 1, r.0, r.1)
            } else {
                bt_from(evs, i + 1, root, stack)
            },
            XmlKind::Empty => {
                let r = attach(root, stack, tag_node(c));
                bt_from(evs, i + 1, r.0, r.1)
            },
            XmlKind::Text => {
                let t = trim_spec(event_text(c));
                if t.len() > 0 && stack.len() > 0 {
                    bt_from(evs, i + 1, root, stack.update(stack.len() - 1, NodeView { text: t, ..stack.last() }))
                } else {
                    bt_from(evs, i + 1, root, stack)
                }
            },
            XmlKind::Eof => Ok(root),
            XmlKind::Error => Err(c),
            _ => bt_from(evs, i + 1, root, stack),
        }
    } else {
        Ok(root)
    }
}

pub open spec fn root_name() -> Seq<char> {
    seq!['_', '_', 'r', 'o', 'o', 't', '_', '_']
}

/// The tree of an XML text, under a root named `__root__`; or the reader's error.
pub open spec fn xml_tree_of(text: Seq<char>) -> Result<NodeView, Seq<char>> {
    bt_from(xml_events(text), 0, empty_node(root_name()), seq![])
}

/// The position of the first attribute with key `key`.
fn attr_position(attrs: &Vec<(String, String)>, key: &str) -> (res: Option<usize>)
    ensures
        match res {
            Some(i) => i < attrs@.len() && attrs@[i as int].0@ == key@ && forall|j: int|
                0 <= j < i ==> (#[trigger] attrs@[j]).0@ != key@,
            None => forall|j: int| 0 <= j < attrs@.len() ==> (#[trigger] attrs@[j]).0@ != key@,
        },
{
    let kc = chars_of(key);
    let mut i: usize = 0;
    while i < attrs.len()
        invariant
            i <= attrs@.len(),
            kc@ == key@,
            forall|j: int| 0 <= j < i ==> (#[trigger] attrs@[j]).0@ != key@,
        decreases attrs@.len() - i,
    {
        let k = chars_of(attrs[i].0.as_str());
        if crate::text::chars_eq(&k, &kc) {
            return Some(i);
        }
        i = i + 1;
    }
    None
}

proof fn lemma_attr_insert(av: Seq<(Seq<char>, Seq<char>)>, k: Seq<char>, v: Seq<char>, pos: Option<usize>)
    requires
        match pos {
            Some(i) => i < av.len() && av[i as int].0 == k && forall|j: int| 0 <= j < i ==> (#[trigger] av[j]).0 != k,
            None => forall|j: int| 0 <= j < av.len() ==> (#[trigger] av[j]).0 != k,
        },
    ensures
        attr_insert(av, k, v) == match pos {
            Some(i) => av.update(i as int, (k, v)),
            None => av.push((k, v)),
        },
        attr_lookup(av, k) == match pos {
            Some(i) => Some(av[i as int].1),
            None => None::<Seq<char>>,
        },
    decreases av.len(),
{
    if av.len() > 0 {
        if av[0].0 == k {
            assert(pos matches Some(i) && i == 0) by {
                if let Some(i) = pos {
                    if i > 0 {
                        assert(av[0].0 != k);
                    }
                }
            }
            assert(seq![(k, v)] + av.skip(1) =~= av.update(0, (k, v)));
        } else {
            let p2: Option<usize> = match pos {
                Some(i) => Some((i - 1) as usize),
                None => None,
            };
            assert(pos matches Some(i) ==> i > 0);
            assert forall|j: int| 0 <= j < av.skip(1).len() implies #[trigger] av.skip(1)[j] == av[j + 1] by {}
            lemma_attr_insert(av.skip(1), k, v, p2);
            match pos {
                Some(i) => {
                    assert(seq![av[0]] + av.skip(1).update(i - 1, (k, v)) =~= av.update(i as int, (k, v)));
                },
                None => {
                    assert(seq![av[0]] + av.skip(1).push((k, v)) =~= av.push((k, v)));
                },
            }
        }
    }
}

impl XmlNode {
    /// An element with the given name and nothing in it.
    pub fn new(name: String) -> (res: XmlNode)
        ensures
            node_view(res) == empty_node(name@),
    {
        let res = XmlNode { name, text: String::new(), attrs: Vec::new(), children: Vec::new() };
        proof {
            let v = node_view(res);
            assert(v.attrs =~= seq![]);
            assert(v.children =~= seq![]);
        }
        res
    }

    /// The value of the attribute with key `key`.
    pub fn find_attr(&self, key: &str) -> (res: Option<&str>)
        ensures
            (match attr_lookup(node_view(*self).attrs, key@) {
                Some(v) => res matches Some(r) && r@ == v,
                None => res is None,
            }),
    {
        let ghost av = node_view(*self).attrs;
        let pos = attr_position(&self.attrs, key);
        proof {
            lemma_attr_insert(av, key@, seq![], pos);
        }
        match pos {
            Some(i) => Some(self.attrs[i].1.as_str()),
            None => None,
        }
    }

    /// Sets attribute `key` to `value`.
    fn set_attr(&mut self, key: String, value: String)
        ensures
            node_view(*final(self)) == (NodeView {
                attrs: attr_insert(node_view(*old(self)).attrs, key@, value@),
                ..node_view(*old(self))
            }),
    {
        let ghost before = node_view(*self);
        let ghost av = before.attrs;
        let pos = attr_position(&self.attrs, key.as_str());
        proof {
            lemma_attr_insert(av, key@, value@, pos);
        }
        match pos {
            Some(i) => {
                self.attrs.set(i, (key, value));
            },
            None => {
                self.attrs.push((key, value));
            },
        }
        proof {
            assert(node_view(*self).attrs =~= attr_insert(before.attrs, key@, value@));
            lemma_children_view(*self, 0);
            lemma_children_view(*old(self), 0);
            assert(node_view(*self).children =~= before.children);
        }
    }

    fn add_child(&mut self, c: XmlNode)
        ensures
            node_view(*final(self)) == with_child(node_view(*old(self)), node_view(c)),
    {
        let ghost before = node_view(*self);
        self.children.push(c);
        proof {
            lemma_children_view(*self, 0);
            lemma_children_view(*old(self), 0);
            assert(node_view(*self).children =~= before.children.push(node_view(c)));
            assert(node_view(*self).attrs =~= before.attrs);
        }
    }
}

pub open spec fn views(ns: Seq<XmlNode>) -> Seq<NodeView> {
    ns.map_values(|n: XmlNode| node_view(n))
}

/// The element that a start or empty tag with the given content opens.
fn new_tag_node(content: &str) -> (res: XmlNode)
    ensures
        node_view(res) == tag_node(content@),
{
    let name = tag_name_of(content);
    let name_s = string_of(name.as_slice());
    let attrs = xml_attributes(content, name_s.as_str());
    let ghost list = tag_attributes(content@, name@);
    let mut node = XmlNode::new(name_s);
    let mut j: usize = 0;
    assert(list.take(0) =~= seq![]);
    while j < attrs.len()
        invariant
            j <= attrs@.len(),
            attrs@.len() == list.len(),
            forall|i: int|
                0 <= i < attrs@.len() ==> (#[trigger] attrs@[i]).0@ == list[i].0 && attrs@[i].1@ == list[i].1,
            node_view(node) == (NodeView {
                name: name@,
                text: seq![],
                attrs: attrs_set(list.take(j as int)),
                children: seq![],
            }),
        decreases attrs@.len() - j,
    {
        let k = attrs[j].0.clone();
        let v = attrs[j].1.clone();
        node.set_attr(k, v);
        proof {
            assert(list.take(j + 1).drop_last() =~= list.take(j as int));
        }
        j = j + 1;
    }
    assert(list.take(attrs@.len() as int) =~= list);
    node
}

/// A finished element goes to the innermost open element, or to the root.
fn attach_node(root: &mut XmlNode, stack: &mut Vec<XmlNode>, node: XmlNode)
    ensures
        ({
            let r = attach(node_view(*old(root)), views(old(stack)@), node_view(node));
            &&& node_view(*final(root)) == r.0
            &&& views(final(stack)@) == r.1
        }),
{
    let ghost sv = views(stack@);
    match stack.pop() {
        Some(mut parent) => {
            parent.add_child(node);
            let ghost mid = stack@;
            stack.push(parent);
            proof {
                assert(views(stack@) =~= sv.update(sv.len() - 1, with_child(sv.last(), node_view(node))));
            }
        },
        None => {
            root.add_child(node);
        },
    }
}

/// Builds the tree of the events that a reader has still to give.
pub fn build_xml_tree(reader: &mut quick_xml::Reader<&[u8]>) -> (res: Result<XmlNode, SpruceError>)
    requires
        well_ended(pending_events(*old(reader))),
    ensures
        (match bt_from(pending_events(*old(reader)), 0, empty_node(root_name()), seq![]) {
            Ok(t) => res matches Ok(n) && node_view(n) == t,
            Err(m) => res matches Err(SpruceError::XmlParse(msg)) && msg@ == m,
        }),
{
    let ghost evs = pending_events(*reader);
    let ghost mut i: int = 0;
    let root_lit = crate::text::lit("__root__");
    proof {
        reveal_strlit("__root__");
    }
    assert(root_lit@ =~= root_name());
    let mut root = XmlNode::new(string_of(root_lit.as_slice()));
    let mut stack: Vec<XmlNode> = Vec::new();
    assert(evs.skip(0) =~= evs);
    assert(views(stack@) =~= seq![]);
    loop
        invariant
            evs == pending_events(*old(reader)),
            well_ended(evs),
            0 <= i < evs.len(),
            pending_events(*reader) == evs.skip(i),
            bt_from(evs, 0, empty_node(root_name()), seq![]) == bt_from(evs, i, node_view(root), views(stack@)),
        decreases evs.len() - i,
    {
        let ev = xml_read_event(reader);
        assert(ev == evs[i]);
        assert(pending_events(*reader) =~= evs.skip(i + 1));
        let ghost sv = views(stack@);
        match ev.kind {
            XmlKind::Start => {
                let node = new_tag_node(ev.content.as_str());
                stack.push(node);
                assert(views(stack@) =~= sv.push(tag_node(ev.content@)));
            },
            XmlKind::End => {
                match stack.pop() {
                    Some(node) => {
                        assert(views(stack@) =~= sv.drop_last());
                        attach_node(&mut root, &mut stack, node);
                    },
                    None => {},
                }
            },
            XmlKind::Empty => {
                let node = new_tag_node(ev.content.as_str());
                attach_node(&mut root, &mut stack, node);
            },
            XmlKind::Text => {
                let text = crate::highlight::text_of_event(ev.content.as_str());
                let t = trim(text.as_str());
                if !t.is_empty() {
                    match stack.pop() {
                        Some(mut last) => {
                            let ghost lv = node_view(last);
                            let ghost old_last = last;
                            last.text = t.to_string();
                            proof {
                                lemma_children_view(last, 0);
                                lemma_children_view(old_last, 0);
                                assert(node_view(last) =~= (NodeView { text: t@, ..lv }));
                            }
                            stack.push(last);
                            assert(views(stack@) =~= sv.update(sv.len() - 1, NodeView { text: t@, ..sv.last() }));
                        },
                        None => {},
                    }
                }
            },
            XmlKind::Eof => {
                return Ok(root);
            },
            XmlKind::Error => {
                return Err(SpruceError::XmlParse(ev.content));
            },
            _ => {},
        }
        proof {
            assert(!is_terminal(evs[i].kind));
            i = i + 1;
        }
    }
}

// ---------------------------------------------------------------------------
// XML queries
// ---------------------------------------------------------------------------

/// Builds the tree of an XML text, reading it with `trim_text` on.
pub fn xml_tree_from_text(text: &str) -> (res: Result<XmlNode, SpruceError>)
    ensures
        (match xml_tree_of(text@) {
            Ok(t) => res matches Ok(n) && node_view(n) == t,
            Err(m) => res matches Err(SpruceError::XmlParse(msg)) && msg@ == m,
        }),
{
    let mut reader = crate::xml::xml_reader(text);
    build_xml_tree(&mut reader)
}

/// A path part `name` or `name@key`: the name, and the attribute it asks for.
pub open spec fn xml_part(p: Seq<char>) -> (Seq<char>, Option<Seq<char>>) {
    let at = upto(p, 0, '@');
    if at < p.len() {
        (p.take(at), Some(p.skip(at + 1)))
    } else {
        (p, None)
    }
}

/// Parses a path part like `item` or `item@id` into its name and attribute key.
pub fn parse_xml_part(part: &str) -> (res: (&str, Option<&str>))
    ensures
        res.0@ == xml_part(part@).0,
        (match xml_part(part@).1 {
            Some(k) => res.1 matches Some(r) && r@ == k,
            None => res.1 is None,
        }),
{
    let cs = chars_of(part);
    proof {
        lemma_upto(cs@, 0, '@');
    }
    let at = find_from(&cs, 0, '@');
    if at < cs.len() {
        let name = part.substring_char(0, at);
        let key = part.substring_char(at + 1, cs.len());
        assert(part@.take(at as int) =~= part@.subrange(0, at as int));
        assert(part@.skip(at + 1) =~= part@.subrange(at + 1, part@.len() as int));
        (name, Some(key))
    } else {
        (part, None)
    }
}

/// Whether an element's name satisfies a path part's name: equal, `*` or empty.
pub open spec fn name_ok(n: NodeView, name: Seq<char>) -> bool {
    n.name == name || name == seq!['*'] || name.len() == 0
}

/// What one element adds to the next step of a query.
pub open spec fn selected(c: NodeView, name: Seq<char>, attr: Option<Seq<char>>, is_last: bool) -> Seq<NodeView> {
    if name_ok(c, name) {
        if is_last {
            match attr {
                Some(k) => if attr_lookup(c.attrs, k) is Some { seq![c] } else { seq![] },
                None => seq![c],
            }
        } else {
            c.children
        }
    } else {
        seq![]
    }
}

/// The elements that one step of a query reaches from `current`: on the last part the
/// matching elements themselves (those with the asked-for attribute, if any), on
/// earlier parts the children of the matching elements.
pub open spec fn select(current: Seq<NodeView>, name: Seq<char>, attr: Option<Seq<char>>, is_last: bool) -> Seq<NodeView>
    decreases current.len(),
{
    if current.len() == 0 {
        seq![]
    } else {
        select(current.drop_last(), name, attr, is_last) + selected(current.last(), name, attr, is_last)
    }
}

/// The elements that a query reaches from `current` with its parts from the `d`-th on.
pub open spec fn eval_parts(current: Seq<NodeView>, parts: Seq<Seq<char>>, d: int) -> Seq<NodeView>
    decreases parts.len() - d,
{
    if d < 0 || d >= parts.len() {
        current
    } else {
        let (name, attr) = xml_part(parts[d]);
        let next = select(current, name, attr, d == parts.len() - 1);
        if next.len() == 0 {
            seq![]
        } else {
            eval_parts(next, parts, d + 1)
        }
    }
}

/// The elements that a query with the given parts matches below `node`; no parts match
/// the node itself.
pub open spec fn xml_query_nodes(node: NodeView, parts: Seq<Seq<char>>) -> Seq<NodeView> {
    if parts.len() == 0 {
        seq![node]
    } else {
        eval_parts(node.children, parts, 0)
    }
}

pub open spec fn ref_views(v: Seq<&XmlNode>) -> Seq<NodeView> {
    v.map_values(|r: &XmlNode| node_view(*r))
}

pub open spec fn str_views(v: Seq<&str>) -> Seq<Seq<char>> {
    v.map_values(|s: &str| s@)
}

fn push_ref<'a>(v: &mut Vec<&'a XmlNode>, n: &'a XmlNode)
    ensures
        ref_views(final(v)@) == ref_views(old(v)@).push(node_view(*n)),
{
    let ghost before = v@;
    v.push(n);
    assert(ref_views(v@) =~= ref_views(before).push(node_view(*n)));
}

/// The children of a node, as references.
fn child_refs<'a>(n: &'a XmlNode, out: &mut Vec<&'a XmlNode>)
    ensures
        ref_views(final(out)@) == ref_views(old(out)@) + node_view(*n).children,
{
    let ghost before = ref_views(out@);
    proof {
        lemma_children_view(*n, 0);
    }
    let mut j: usize = 0;
    while j < n.children.len()
        invariant
            j <= n.children@.len(),
            ref_views(out@) == before + node_view(*n).children.take(j as int),
            node_view(*n).children =~= Seq::new(n.children@.len(), |k: int| node_view(n.children@[k])),
        decreases n.children@.len() - j,
    {
        push_ref(out, &n.children[j]);
        j = j + 1;
        assert(ref_views(out@) =~= before + node_view(*n).children.take(j as int));
    }
    assert(node_view(*n).children.take(j as int) =~= node_view(*n).children);
}

/// Evaluates an XPath-like query by walking the tree: the elements that `parts` match
/// below `node`.
pub fn evaluate_xml_query<'a>(node: &'a XmlNode, parts: &[&str]) -> (res: Vec<&'a XmlNode>)
    ensures
        ref_views(res@) == xml_query_nodes(node_view(*node), str_views(parts@)),
{
    let ghost ps = str_views(parts@);
    let mut out0: Vec<&XmlNode> = Vec::new();
    if parts.len() == 0 {
        push_ref(&mut out0, node);
        assert(ref_views(out0@) =~= seq![node_view(*node)]);
        return out0;
    }
    let mut current: Vec<&XmlNode> = Vec::new();
    child_refs(node, &mut current);
    assert(ref_views(current@) =~= node_view(*node).children);
    let mut d: usize = 0;
    while d < parts.len()
        invariant
            ps == str_views(parts@),
            ps.len() == parts@.len(),
            ps.len() > 0,
            d <= parts@.len(),
            xml_query_nodes(node_view(*node), ps) == eval_parts(ref_views(current@), ps, d as int),
        decreases parts@.len() - d,
    {
        let (name, attr_req) = parse_xml_part(parts[d]);
        let is_last = d == parts.len() - 1;
        let ghost cur = ref_views(current@);
        let ghost nm = name@;
        let ghost at: Option<Seq<char>> = match attr_req {
            Some(k) => Some(k@),
            None => None,
        };
        assert(ps[d as int] == parts@[d as int]@);
        let name_c = chars_of(name);
        let star = name_c.len() == 1 && name_c[0] == '*';
        assert(star == (nm == seq!['*'])) by {
            if nm == seq!['*'] {
                assert(nm.len() == 1);
            }
            if star {
                assert(nm =~= seq!['*']);
            }
        }
        let mut next: Vec<&XmlNode> = Vec::new();
        let mut j: usize = 0;
        assert(ref_views(next@) =~= select(cur.take(0), nm, at, is_last));
        while j < current.len()
            invariant
                cur == ref_views(current@),
                j <= current@.len(),
                name_c@ == nm,
                name@ == nm,
                star == (nm == seq!['*']),
                match attr_req {
                    Some(k) => at == Some(k@),
                    None => at is None,
                },
                ref_views(next@) == select(cur.take(j as int), nm, at, is_last),
            decreases current@.len() - j,
        {
            let child = current[j];
            let cn = chars_of(child.name.as_str());
            let ok = crate::text::chars_eq(&cn, &name_c) || star || name_c.len() == 0;
            let ghost before = ref_views(next@);
            if ok {
                if is_last {
                    match attr_req {
                        Some(k) => {
                            if child.find_attr(k).is_some() {
                                push_ref(&mut next, child);
                            }
                        },
                        None => {
                            push_ref(&mut next, child);
                        },
                    }
                } else {
                    child_refs(child, &mut next);
                }
            }
            proof {
                assert(cur.take(j + 1).drop_last() =~= cur.take(j as int));
                assert(cur.take(j + 1).last() == node_view(*child));
                assert(ref_views(next@) =~= before + selected(node_view(*child), nm, at, is_last));
            }
            j = j + 1;
        }
        assert(cur.take(current@.len() as int) =~= cur);
        current = next;
        if current.len() == 0 {
            let empty: Vec<&XmlNode> = Vec::new();
            assert(ref_views(empty@) =~= seq![]);
            return empty;
        }
        d = d + 1;
    }
    current
}

// ---------------------------------------------------------------------------
// XML elements as JSON
// ---------------------------------------------------------------------------

pub open spec fn text_key() -> Seq<char> {
    seq!['#', 't', 'e', 'x', 't']
}

/// The entries `base` after setting `@key` to each of the first `j` attributes.
pub open spec fn attr_entries(attrs: Seq<(Seq<char>, Seq<char>)>, j: int, base: Seq<(Seq<char>, JsonData)>) -> Seq<(Seq<char>, JsonData)>
    decreases j,
{
    if j <= 0 || j > attrs.len() {
        base
    } else {
        sorted_insert(
            attr_entries(attrs, j - 1, base),
            seq!['@'] + attrs[j - 1].0,
            JsonData::Str(attrs[j - 1].1),
        )
    }
}

/// The JSON of an element: a leaf with text and no attributes is its text, a leaf
/// with neither is its name; otherwise an object of `#text`, `@key` for each attribute
/// and the child elements by name (a later child replacing an earlier one of the same
/// name).
pub open spec fn node_json(n: NodeView) -> JsonData
    decreases n, 1nat, 0nat,
{
    if n.children.len() == 0 && n.text.len() > 0 {
        if n.attrs.len() == 0 {
            JsonData::Str(n.text)
        } else {
            JsonData::Object(
                attr_entries(n.attrs, n.attrs.len() as int, seq![(text_key(), JsonData::Str(n.text))]),
            )
        }
    } else if n.children.len() == 0 {
        if n.attrs.len() == 0 {
            JsonData::Str(n.name)
        } else {
            JsonData::Object(attr_entries(n.attrs, n.attrs.len() as int, seq![]))
        }
    } else {
        let m0 = if n.text.len() > 0 { seq![(text_key(), JsonData::Str(n.text))] } else { seq![] };
        JsonData::Object(child_entries(n, n.children.len(), attr_entries(n.attrs, n.attrs.len() as int, m0)))
    }
}

/// The entries `base` after setting each of the first `j` children of `n` by name.
pub open spec fn child_entries(n: NodeView, j: nat, base: Seq<(Seq<char>, JsonData)>) -> Seq<(Seq<char>, JsonData)>
    decreases n, 0nat, j,
{
    if j == 0 || j > n.children.len() {
        base
    } else {
        proof {
            assert(decreases_to!(n => n.children));
        }
        sorted_insert(
            child_entries(n, (j - 1) as nat, base),
            n.children[j - 1].name,
            node_json(n.children[j - 1]),
        )
    }
}

/// Converts an element to JSON.
pub fn xml_node_to_json(node: &XmlNode) -> (res: Value)
    ensures
        json_model(res) == node_json(node_view(*node)),
    decreases node,
{
    let ghost nv = node_view(*node);
    proof {
        lemma_children_view(*node, 0);
    }
    let text_lit = crate::text::lit("#text");
    proof {
        reveal_strlit("#text");
    }
    assert(text_lit@ =~= text_key());
    let is_leaf = node.children.len() == 0;
    let has_text = node.text.as_str().is_empty() == false;
    if is_leaf && has_text && node.attrs.len() == 0 {
        return json_string(node.text.clone());
    }
    if is_leaf && !has_text && node.attrs.len() == 0 {
        return json_string(node.name.clone());
    }
    let mut m = json_map_new();
    let ghost mut base: Seq<(Seq<char>, JsonData)> = seq![];
    if has_text {
        json_map_insert(&mut m, string_of(text_lit.as_slice()), json_string(node.text.clone()));
        proof {
            base = seq![(text_key(), JsonData::Str(nv.text))];
            assert(map_model(m) =~= base);
        }
    }
    assert(map_model(m) == base);
    assert(keys_sorted(base));
    let mut j: usize = 0;
    while j < node.attrs.len()
        invariant
            j <= node.attrs@.len(),
            nv == node_view(*node),
            nv.attrs == node.attrs@.map_values(|p: (String, String)| pair_view(p)),
            map_model(m) == attr_entries(nv.attrs, j as int, base),
            keys_sorted(map_model(m)),
        decreases node.attrs@.len() - j,
    {
        let mut key: Vec<char> = vec!['@'];
        let kc = chars_of(node.attrs[j].0.as_str());
        key = crate::text::concat_chars(&key, &kc);
        let ghost before = map_model(m);
        let ghost kv = key@;
        proof {
            assert(nv.attrs[j as int] == pair_view(node.attrs@[j as int]));
            assert(kv =~= seq!['@'] + nv.attrs[j as int].0);
            lemma_sorted_insert(before, kv, JsonData::Str(nv.attrs[j as int].1));
        }
        json_map_insert(&mut m, string_of(key.as_slice()), json_string(node.attrs[j].1.clone()));
        j = j + 1;
    }
    if is_leaf {
        return json_object(m);
    }
    let ghost base2 = map_model(m);
    let mut c: usize = 0;
    while c < node.children.len()
        invariant
            c <= node.children@.len(),
            nv == node_view(*node),
            nv.children =~= Seq::new(node.children@.len(), |k: int| node_view(node.children@[k])),
            map_model(m) == child_entries(nv, c as nat, base2),
            keys_sorted(map_model(m)),
        decreases node.children@.len() - c,
    {
        let child = &node.children[c];
        let ghost before = map_model(m);
        proof {
            assert(decreases_to!(*node => node.children));
            assert(decreases_to!(node.children => node.children@));
            lemma_sorted_insert(before, child.name@, node_json(node_view(*child)));
        }
        let v = xml_node_to_json(child);
        json_map_insert(&mut m, child.name.clone(), v);
        c = c + 1;
    }
    json_object(m)
}

// ---------------------------------------------------------------------------
// The XML query command
// ---------------------------------------------------------------------------

/// The non-empty pieces between the slashes of `s`, from position `p` on.
pub open spec fn slash_parts(s: Seq<char>, p: int) -> Seq<Seq<char>>
    decreases s.len() - p,
{
    if p < 0 || p >= s.len() {
        seq![]
    } else {
        let k = upto(s, p, '/');
        let piece = s.subrange(p, k);
        let here = if piece.len() > 0 { seq![piece] } else { seq![] };
        if p <= k < s.len() {
            here + slash_parts(s, k + 1)
        } else {
            here
        }
    }
}

/// The element parts of a query and the attribute it asks for: an `@` in the last part
/// splits off the attribute key (and the part is dropped where the `@` begins it).
pub open spec fn query_parts(q: Seq<char>) -> (Seq<Seq<char>>, Option<Seq<char>>) {
    let raw = slash_parts(q, 0);
    if raw.len() == 0 {
        (raw, None)
    } else {
        let last = raw.last();
        let at = upto(last, 0, '@');
        if at < last.len() {
            let elems = if at > 0 { raw.drop_last().push(last.take(at)) } else { raw.drop_last() };
            (elems, Some(last.skip(at + 1)))
        } else {
            (raw, None)
        }
    }
}

/// The values that the matched elements give for attribute `k`, in order.
pub open spec fn attr_values(ns: Seq<NodeView>, k: Seq<char>) -> Seq<Seq<char>>
    decreases ns.len(),
{
    if ns.len() == 0 {
        seq![]
    } else {
        let rest = attr_values(ns.drop_last(), k);
        match attr_lookup(ns.last().attrs, k) {
            Some(v) => rest.push(v),
            None => rest,
        }
    }
}

pub open spec fn strs_json(vs: Seq<Seq<char>>) -> Seq<JsonData> {
    vs.map_values(|v: Seq<char>| JsonData::Str(v))
}

pub open spec fn nodes_json(ns: Seq<NodeView>) -> Seq<JsonData> {
    ns.map_values(|n: NodeView| node_json(n))
}

/// One value stands for itself; several make an array.
pub open spec fn one_or_array(vs: Seq<JsonData>) -> JsonData {
    if vs.len() == 1 {
        vs[0]
    } else {
        JsonData::Array(vs)
    }
}

/// The last step of a query that asks for the text of the matched elements.
pub open spec fn text_step() -> Seq<char> {
    seq!['t', 'e', 'x', 't', '(', ')']
}

/// Whether a query's parts end with `text()`.
pub open spec fn asks_text(raw: Seq<Seq<char>>) -> bool {
    raw.len() > 0 && raw.last() == text_step()
}

/// The texts of the elements that hold any, in order.
pub open spec fn node_texts(ns: Seq<NodeView>) -> Seq<Seq<char>>
    decreases ns.len(),
{
    if ns.len() == 0 {
        seq![]
    } else {
        let rest = node_texts(ns.drop_last());
        if ns.last().text.len() > 0 {
            rest.push(ns.last().text)
        } else {
            rest
        }
    }
}

/// The result of an XML query on XML text, as JSON: the matched elements, the values
/// of the asked-for attribute, or, for a query that ends with `text()`, the texts of the
/// elements the rest of it matches.
pub open spec fn xml_query(text: Seq<char>, query: Seq<char>) -> Result<JsonData, Failure> {
    match xml_tree_of(text) {
        Err(m) => Err(Failure::XmlParse(m)),
        Ok(root) => {
            let raw = slash_parts(query, 0);
            let texts = asks_text(raw);
            let parts = if texts { raw.drop_last() } else { query_parts(query).0 };
            let attr = if texts { None } else { query_parts(query).1 };
            let matched = xml_query_nodes(root, parts);
            if matched.len() == 0 {
                Err(Failure::NoMatch(query))
            } else if texts {
                let vals = node_texts(matched);
                if vals.len() == 0 {
                    Err(Failure::NoText(query))
                } else {
                    Ok(one_or_array(strs_json(vals)))
                }
            } else {
                match attr {
                    Some(k) => {
                        let vals = attr_values(matched, k);
                        if vals.len() == 0 {
                            Err(Failure::AttributeNotFound(k))
                        } else {
                            Ok(one_or_array(strs_json(vals)))
                        }
                    },
                    None => Ok(one_or_array(nodes_json(matched))),
                }
            }
        },
    }
}

fn push_string(v: &mut Vec<String>, s: String)
    ensures
        final(v)@.map_values(|x: String| x@) == old(v)@.map_values(|x: String| x@).push(s@),
{
    let ghost before = v@;
    v.push(s);
    assert(v@.map_values(|x: String| x@) =~= before.map_values(|x: String| x@).push(s@));
}

/// The non-empty pieces between the slashes of a query.
fn split_slashes(q: &Vec<char>) -> (res: Vec<String>)
    ensures
        res@.map_values(|x: String| x@) == slash_parts(q@, 0),
{
    let ghost s = q@;
    let n = q.len();
    let mut out: Vec<String> = Vec::new();
    let mut p: usize = 0;
    assert(out@.map_values(|x: String| x@) =~= seq![]);
    while p < n
        invariant
            n == s.len(),
            s == q@,
            p <= n,
            out@.map_values(|x: String| x@) + slash_parts(s, p as int) == slash_parts(s, 0),
        decreases n - p,
    {
        proof {
            lemma_upto(s, p as int, '/');
        }
        let ghost before = out@.map_values(|x: String| x@);
        let k = find_from(q, p, '/');
        let piece = sub_chars(q, p, k);
        if piece.len() > 0 {
            push_string(&mut out, string_of(piece.as_slice()));
        }
        let old_p = p;
        p = if k < n { k + 1 } else { n };
        proof {
            if k < n {
                assert(before + slash_parts(s, old_p as int) =~= out@.map_values(|x: String| x@) + slash_parts(s, p as int));
            } else {
                assert(before + slash_parts(s, old_p as int) =~= out@.map_values(|x: String| x@) + slash_parts(s, p as int));
            }
        }
    }
    assert(out@.map_values(|x: String| x@) =~= slash_parts(s, 0));
    out
}

/// The element parts and attribute key of a query.
fn split_query(query: &str) -> (res: (Vec<String>, Option<String>))
    ensures
        res.0@.map_values(|x: String| x@) == query_parts(query@).0,
        (match query_parts(query@).1 {
            Some(k) => res.1 matches Some(r) && r@ == k,
            None => res.1 is None,
        }),
{
    let q = chars_of(query);
    let mut raw = split_slashes(&q);
    let ghost rv = raw@.map_values(|x: String| x@);
    if raw.len() == 0 {
        return (raw, None);
    }
    let last = chars_of(raw[raw.len() - 1].as_str());
    assert(last@ == rv.last());
    proof {
        lemma_upto(last@, 0, '@');
    }
    let at = find_from(&last, 0, '@');
    if at < last.len() {
        let key = sub_chars(&last, at + 1, last.len());
        raw.pop();
        assert(raw@.map_values(|x: String| x@) =~= rv.drop_last());
        if at > 0 {
            let name = sub_chars(&last, 0, at);
            push_string(&mut raw, string_of(name.as_slice()));
            assert(name@ =~= last@.take(at as int));
        }
        assert(key@ =~= last@.skip(at + 1));
        (raw, Some(string_of(key.as_slice())))
    } else {
        (raw, None)
    }
}

/// For a query whose parts end with `text()`, the parts before it.
fn text_query(query: &str) -> (res: Option<Vec<String>>)
    ensures
        asks_text(slash_parts(query@, 0)) ==> (res matches Some(p) && p@.map_values(|x: String| x@)
            == slash_parts(query@, 0).drop_last()),
        !asks_text(slash_parts(query@, 0)) ==> res is None,
{
    let q = chars_of(query);
    let mut raw = split_slashes(&q);
    let ghost rv = raw@.map_values(|x: String| x@);
    if raw.len() == 0 {
        return None;
    }
    let last = chars_of(raw[raw.len() - 1].as_str());
    assert(last@ == rv.last());
    let t = vec!['t', 'e', 'x', 't', '(', ')'];
    assert(t@ =~= text_step());
    if crate::text::chars_eq(&last, &t) {
        raw.pop();
        assert(raw@.map_values(|x: String| x@) =~= rv.drop_last());
        Some(raw)
    } else {
        None
    }
}

/// One value stands for itself; several make an array.
fn one_or_array_exec(mut vs: Vec<Value>) -> (res: Value)
    requires
        vs@.len() > 0,
    ensures
        json_model(res) == one_or_array(models(vs@)),
{
    if vs.len() == 1 {
        let v = vs.pop().unwrap();
        v
    } else {
        json_array(vs)
    }
}

/// What [`query_xml`] gives.
pub open spec fn query_xml_result(content: Seq<char>, query: Seq<char>, no_color: bool, res: Result<String, SpruceError>) -> bool {
    match xml_query(content, query) {
        Err(f) => res matches Err(e) && e@ == f,
        Ok(d) => res matches Ok(out) && (if no_color {
            out@ == pretty_json(d)
        } else {
            is_rendering(json_spans(pretty_json(d)), out@)
        }),
    }
}

/// Evaluates an XPath-like query against XML text and shows the result as pretty JSON;
/// with colors unless `no_color`.
pub fn query_xml(content: &str, query: &str, no_color: bool) -> (res: Result<String, SpruceError>)
    ensures
        query_xml_result(content@, query@, no_color, res),
{
    let tq = text_query(query);
    let texts = tq.is_some();
    let (parts_split, attr_split) = split_query(query);
    let (parts_owned, attr_target) = match tq {
        Some(p) => (p, None),
        None => (parts_split, attr_split),
    };
    let ghost raw = slash_parts(query@, 0);
    assert(texts == asks_text(raw));
    assert(parts_owned@.map_values(|x: String| x@) == (if texts { raw.drop_last() } else { query_parts(query@).0 }));
    let mut parts: Vec<&str> = Vec::new();
    let mut i: usize = 0;
    while i < parts_owned.len()
        invariant
            i <= parts_owned@.len(),
            str_views(parts@) == parts_owned@.take(i as int).map_values(|x: String| x@),
        decreases parts_owned@.len() - i,
    {
        let ghost before = parts@;
        parts.push(parts_owned[i].as_str());
        proof {
            assert(str_views(parts@) =~= str_views(before).push(parts_owned@[i as int]@));
            assert(parts_owned@.take(i + 1).map_values(|x: String| x@) =~= parts_owned@.take(i as int).map_values(
                |x: String| x@,
            ).push(parts_owned@[i as int]@));
        }
        i = i + 1;
    }
    assert(parts_owned@.take(parts_owned@.len() as int) =~= parts_owned@);
    let mut reader = crate::xml::xml_reader(content);
    let root = build_xml_tree(&mut reader)?;
    let matched = evaluate_xml_query(&root, parts.as_slice());
    let ghost mv = ref_views(matched@);
    if matched.len() == 0 {
        return Err(SpruceError::NoMatch(query.to_string()));
    }
    let output = if texts {
        let mut values: Vec<Value> = Vec::new();
        let mut j: usize = 0;
        assert(models(values@) =~= strs_json(node_texts(mv.take(0))));
        while j < matched.len()
            invariant
                j <= matched@.len(),
                mv == ref_views(matched@),
                models(values@) == strs_json(node_texts(mv.take(j as int))),
            decreases matched@.len() - j,
        {
            let ghost before = values@;
            proof {
                assert(mv.take(j + 1).drop_last() =~= mv.take(j as int));
                assert(mv.take(j + 1).last() == node_view(*matched@[j as int]));
            }
            if !matched[j].text.as_str().is_empty() {
                values.push(json_string(matched[j].text.clone()));
                proof {
                    assert(models(values@) =~= models(before).push(json_model(values@.last())));
                    assert(strs_json(node_texts(mv.take(j + 1))) =~= strs_json(node_texts(mv.take(j as int))).push(
                        JsonData::Str(matched@[j as int].text@),
                    ));
                }
            } else {
                assert(models(values@) =~= models(before));
            }
            j = j + 1;
        }
        assert(mv.take(matched@.len() as int) =~= mv);
        if values.len() == 0 {
            return Err(SpruceError::NoText(query.to_string()));
        }
        one_or_array_exec(values)
    } else {
        match attr_target {
        Some(attr_key) => {
            let mut values: Vec<Value> = Vec::new();
            let mut j: usize = 0;
            while j < matched.len()
                invariant
                    j <= matched@.len(),
                    mv == ref_views(matched@),
                    models(values@) == strs_json(attr_values(mv.take(j as int), attr_key@)),
                decreases matched@.len() - j,
            {
                let ghost before = values@;
                proof {
                    assert(mv.take(j + 1).drop_last() =~= mv.take(j as int));
                }
                match matched[j].find_attr(attr_key.as_str()) {
                    Some(v) => {
                        values.push(json_string(v.to_string()));
                        proof {
                            assert(values@ =~= before.push(values@[before.len() as int]));
                            assert(models(values@) =~= models(before).push(json_model(values@.last())));
                        }
                    },
                    None => {},
                }
                j = j + 1;
            }
            assert(mv.take(matched@.len() as int) =~= mv);
            if values.len() == 0 {
                return Err(SpruceError::AttributeNotFound(attr_key));
            }
            one_or_array_exec(values)
        },
        None => {
            let mut results: Vec<Value> = Vec::new();
            let mut j: usize = 0;
            while j < matched.len()
                invariant
                    j <= matched@.len(),
                    mv == ref_views(matched@),
                    models(results@) == nodes_json(mv.take(j as int)),
                decreases matched@.len() - j,
            {
                let ghost before = results@;
                let v = xml_node_to_json(matched[j]);
                results.push(v);
                proof {
                    assert(models(results@) =~= models(before).push(json_model(v)));
                    assert(nodes_json(mv.take(j + 1)) =~= nodes_json(mv.take(j as int)).push(node_json(mv[j as int])));
                }
                j = j + 1;
            }
            assert(mv.take(matched@.len() as int) =~= mv);
            one_or_array_exec(results)
        },
        }
    };
    let formatted = match json_to_string_pretty(&output) {
        Ok(s) => s,
        Err(_) => {
            return Err(SpruceError::QueryResultSerialize);
        },
    };
    if no_color {
        Ok(formatted)
    } else {
        Ok(highlight_json(formatted.as_str(), no_color))
    }
}

} // verus!
