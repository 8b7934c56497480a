use crate::json::{JsonValue, JsonView, view_json, view_json_fields, json_text, json_to_string};
use crate::config::copy::copy_json_fields;
use crate::text::{chars_of, is_ws, skip_ws, skip_ws_back, trim, trim_start, trim_str};
use vstd::prelude::*;
use vstd::string::*;

verus! {

/// Named values that `{{placeholder}}`s are filled from. When a name occurs
/// twice, the first entry is the one that counts.
pub struct Vars {
    pub entries: Vec<(String, JsonValue)>,
}

impl View for Vars {
    type V = Seq<(Seq<char>, JsonView)>;

    open spec fn view(&self) -> Seq<(Seq<char>, JsonView)> {
        view_json_fields(self.entries@)
    }
}

/// First entry at or after `i` named `key`.
pub open spec fn lookup_at(entries: Seq<(Seq<char>, JsonView)>, key: Seq<char>, i: int) -> Option<JsonView>
    decreases entries.len() - i,
{
    if i < 0 || i >= entries.len() {
        None
    } else if entries[i].0 == key {
        Some(entries[i].1)
    } else {
        lookup_at(entries, key, i + 1)
    }
}

pub open spec fn lookup(entries: Seq<(Seq<char>, JsonView)>, key: Seq<char>) -> Option<JsonView> {
    lookup_at(entries, key, 0)
}

/// Index of the first `.` in `s` at or after `i`.
pub open spec fn dot_at(s: Seq<char>, i: int) -> Option<int>
    decreases s.len() - i,
{
    if i < 0 || i >= s.len() {
        None
    } else if s[i] == '.' {
        Some(i)
    } else {
        dot_at(s, i + 1)
    }
}

/// The member `name` of an object, if the value is one and has it.
pub open spec fn member(v: JsonView, name: Seq<char>) -> Option<JsonView> {
    match v {
        JsonView::Object(fields) => lookup(fields, name),
        _ => None,
    }
}

/// Follows a dotted path (`a.b.c`) through nested objects.
pub open spec fn descend(v: JsonView, path: Seq<char>) -> Option<JsonView>
    decreases path.len(),
{
    match dot_at(path, 0) {
        None => member(v, path),
        Some(d) => if 0 <= d < path.len() {
            match member(v, path.subrange(0, d)) {
                None => None,
                Some(inner) => descend(inner, path.subrange(d + 1, path.len() as int)),
            }
        } else {
            None
        },
    }
}

/// The value a placeholder key names: the variable of that exact name, else,
/// for a dotted key `root.path`, the member `path` inside variable `root`.
pub open spec fn resolve(vars: Seq<(Seq<char>, JsonView)>, key: Seq<char>) -> Option<JsonView> {
    match lookup(vars, key) {
        Some(v) => Some(v),
        None => match dot_at(key, 0) {
            None => None,
            Some(d) => if 0 <= d < key.len() {
                match lookup(vars, key.subrange(0, d)) {
                    None => None,
                    Some(root) => descend(root, key.subrange(d + 1, key.len() as int)),
                }
            } else {
                None
            },
        },
    }
}

/// The text a value contributes to a rendered template: a string as is,
/// anything else as its JSON text.
pub open spec fn value_text(v: JsonView) -> Seq<char> {
    match v {
        JsonView::Str(s) => s,
        JsonView::Null => "null"@,
        JsonView::Bool(b) => if b { "true"@ } else { "false"@ },
        JsonView::Number(t) => t,
        _ => json_text(v),
    }
}

/// Why rendering failed.
pub enum RenderFailure {
    Unclosed(Seq<char>),
    Empty,
    Missing(Seq<char>),
}

/// The error of [`render_template`].
#[derive(Debug)]
pub enum RenderError {
    /// `{{` with no closing `}}`; holds the text after the `{{`.
    Unclosed(String),
    /// `{{ }}` with nothing but whitespace inside.
    EmptyPlaceholder,
    /// A placeholder naming no variable.
    MissingVariable(String),
}

impl View for RenderError {
    type V = RenderFailure;

    open spec fn view(&self) -> RenderFailure {
        match self {
            RenderError::Unclosed(k) => RenderFailure::Unclosed(k@),
            RenderError::EmptyPlaceholder => RenderFailure::Empty,
            RenderError::MissingVariable(k) => RenderFailure::Missing(k@),
        }
    }
}

pub open spec fn render_error_text(e: RenderFailure) -> Seq<char> {
    match e {
        RenderFailure::Unclosed(k) => "unclosed template placeholder: {{"@ + k,
        RenderFailure::Empty => "empty template placeholder"@,
        RenderFailure::Missing(k) => "missing template variable: "@ + k,
    }
}

impl RenderError {
    /// The error message.
    pub fn to_string(&self) -> (r: String)
        ensures
            r@ == render_error_text(self@),
    {
        match self {
            RenderError::Unclosed(k) => {
                let mut s = String::from_str("unclosed template placeholder: {{");
                s.append(k.as_str());
                s
            },
            RenderError::EmptyPlaceholder => String::from_str("empty template placeholder"),
            RenderError::MissingVariable(k) => {
                let mut s = String::from_str("missing template variable: ");
                s.append(k.as_str());
                s
            },
        }
    }
}

/// First position `k >= j` where `}}` starts.
pub open spec fn close_at(t: Seq<char>, j: int) -> Option<int>
    decreases t.len() - j,
{
    if j < 0 || j + 1 >= t.len() {
        None
    } else if t[j] == '}' && t[j + 1] == '}' {
        Some(j)
    } else {
        close_at(t, j + 1)
    }
}

pub open spec fn opens_at(t: Seq<char>, i: int) -> bool {
    0 <= i && i + 1 < t.len() && t[i] == '{' && t[i + 1] == '{'
}

pub open spec fn prefixed(p: Seq<char>, r: Result<Seq<char>, RenderFailure>) -> Result<Seq<char>, RenderFailure> {
    match r {
        Ok(s) => Ok(p + s),
        Err(e) => Err(e),
    }
}

/// Rendering of `t[i..]`: text is copied, each `{{ key }}` is replaced by the
/// text of the value that the trimmed key resolves to.
pub open spec fn render_from(t: Seq<char>, i: int, vars: Seq<(Seq<char>, JsonView)>) -> Result<Seq<char>, RenderFailure>
    decreases t.len() - i, 1int,
{
    if i < 0 || i >= t.len() {
        Ok(Seq::empty())
    } else if opens_at(t, i) {
        match close_at(t, i + 2) {
            None => Err(RenderFailure::Unclosed(t.subrange(i + 2, t.len() as int))),
            Some(k) => if i + 2 <= k && k + 2 <= t.len() {
                let key = trim(t.subrange(i + 2, k));
                if key.len() == 0 {
                    Err(RenderFailure::Empty)
                } else {
                    match resolve(vars, key) {
                        None => Err(RenderFailure::Missing(key)),
                        Some(v) => prefixed(value_text(v), render_from(t, k + 2, vars)),
                    }
                }
            } else {
                Ok(Seq::empty())
            },
        }
    } else {
        prefixed(seq![t[i]], render_from(t, i + 1, vars))
    }
}

pub open spec fn render_spec(t: Seq<char>, vars: Seq<(Seq<char>, JsonView)>) -> Result<Seq<char>, RenderFailure> {
    render_from(t, 0, vars)
}

pub proof fn lemma_close_at_bounds(t: Seq<char>, j: int)
    requires
        0 <= j,
    ensures
        close_at(t, j) matches Some(k) ==> j <= k && k + 2 <= t.len() && t[k] == '}' && t[k + 1] == '}',
    decreases t.len() - j,
{
    if j + 1 < t.len() && !(t[j] == '}' && t[j + 1] == '}') {
        lemma_close_at_bounds(t, j + 1);
    }
}

pub proof fn lemma_dot_at_bounds(s: Seq<char>, i: int)
    requires
        0 <= i,
    ensures
        dot_at(s, i) matches Some(d) ==> i <= d < s.len() && s[d] == '.',
    decreases s.len() - i,
{
    if i < s.len() && s[i] != '.' {
        lemma_dot_at_bounds(s, i + 1);
    }
}

/// The first entry of `entries` named `key`.
pub fn lookup_entry<'a>(entries: &'a Vec<(String, JsonValue)>, key: &String) -> (r: Option<&'a JsonValue>)
    ensures
        match r {
            Some(v) => lookup(view_json_fields(entries@), key@) == Some(v@),
            None => lookup(view_json_fields(entries@), key@) is None,
        },
{
    let ghost fs = view_json_fields(entries@);
    proof {
        lemma_view_fields_len(entries@);
    }
    let mut i: usize = 0;
    while i < entries.len()
        invariant
            i <= entries.len(),
            fs == view_json_fields(entries@),
            fs.len() == entries@.len(),
            lookup(fs, key@) == lookup_at(fs, key@, i as int),
        decreases entries.len() - i,
    {
        proof {
            lemma_view_fields_index(entries@, i as int);
        }
        if entries[i].0 == *key {
            return Some(&entries[i].1);
        }
        i = i + 1;
    }
    None
}

pub proof fn lemma_view_fields_len(s: Seq<(String, JsonValue)>)
    ensures
        view_json_fields(s).len() == s.len(),
    decreases s.len(),
{
    if s.len() > 0 {
        lemma_view_fields_len(s.drop_last());
    }
}

pub proof fn lemma_view_fields_index(s: Seq<(String, JsonValue)>, i: int)
    requires
        0 <= i < s.len(),
    ensures
        view_json_fields(s).len() == s.len(),
        view_json_fields(s)[i] == (s[i].0@, view_json(s[i].1)),
    decreases s.len(),
{
    lemma_view_fields_len(s);
    if i < s.len() - 1 {
        lemma_view_fields_index(s.drop_last(), i);
    }
}

/// Index of the first `.` in `k`.
fn find_dot(k: &Vec<char>) -> (r: Option<usize>)
    ensures
        match r {
            Some(d) => dot_at(k@, 0) == Some(d as int),
            None => dot_at(k@, 0) is None,
        },
{
    let mut i: usize = 0;
    while i < k.len()
        invariant
            i <= k.len(),
            dot_at(k@, 0) == dot_at(k@, i as int),
        decreases k.len() - i,
    {
        if k[i] == '.' {
            return Some(i);
        }
        i = i + 1;
    }
    None
}

/// The value a placeholder key names (see [`resolve`]).
pub fn resolve_var<'a>(vars: &'a Vars, key: &str) -> (r: Option<&'a JsonValue>)
    ensures
        match r {
            Some(v) => resolve(vars@, key@) == Some(v@),
            None => resolve(vars@, key@) is None,
        },
{
    let k = String::from_str(key);
    match lookup_entry(&vars.entries, &k) {
        Some(v) => return Some(v),
        None => {},
    }
    let kc = chars_of(key);
    match find_dot(&kc) {
        None => None,
        Some(d) => {
            proof {
                lemma_dot_at_bounds(key@, 0);
            }
            let head = String::from_str(key.substring_char(0, d));
            match lookup_entry(&vars.entries, &head) {
                None => None,
                Some(root) => {
                    let rest = key.substring_char(d + 1, kc.len());
                    descend_value(root, rest)
                },
            }
        },
    }
}

fn member_value<'a>(v: &'a JsonValue, name: &String) -> (r: Option<&'a JsonValue>)
    ensures
        match r {
            Some(x) => member(v@, name@) == Some(x@),
            None => member(v@, name@) is None,
        },
{
    match v {
        JsonValue::Object(fields) => lookup_entry(fields, name),
        _ => None,
    }
}

fn descend_value<'a>(v: &'a JsonValue, path: &str) -> (r: Option<&'a JsonValue>)
    ensures
        match r {
            Some(x) => descend(v@, path@) == Some(x@),
            None => descend(v@, path@) is None,
        },
    decreases path@.len(),
{
    let pc = chars_of(path);
    match find_dot(&pc) {
        None => {
            let name = String::from_str(path);
            member_value(v, &name)
        },
        Some(d) => {
            proof {
                lemma_dot_at_bounds(path@, 0);
            }
            let head = String::from_str(path.substring_char(0, d));
            match member_value(v, &head) {
                None => None,
                Some(inner) => {
                    let rest = path.substring_char(d + 1, pc.len());
                    descend_value(inner, rest)
                },
            }
        },
    }
}

/// The text a value contributes to a rendered template (see [`value_text`]).
pub fn value_to_text(v: &JsonValue) -> (r: String)
    ensures
        r@ == value_text(v@),
{
    match v {
        JsonValue::Str(s) => s.clone(),
        JsonValue::Null => String::from_str("null"),
        JsonValue::Bool(b) => if *b {
            String::from_str("true")
        } else {
            String::from_str("false")
        },
        JsonValue::Number(t) => t.clone(),
        _ => json_to_string(v),
    }
}

pub proof fn lemma_prefixed_assoc(a: Seq<char>, b: Seq<char>, r: Result<Seq<char>, RenderFailure>)
    ensures
        prefixed(a, prefixed(b, r)) == prefixed(a + b, r),
{
    match r {
        Ok(s) => {
            assert((a + b) + s =~= a + (b + s));
        },
        Err(_) => {},
    }
}

/// Position of the first `}}` at or after `start`.
pub fn find_close(c: &Vec<char>, start: usize) -> (r: Option<usize>)
    ensures
        match r {
            Some(k) => close_at(c@, start as int) == Some(k as int),
            None => close_at(c@, start as int) is None,
        },
{
    let n = c.len();
    let mut k: usize = start;
    while k < n && k + 1 < n
        invariant
            n == c@.len(),
            start <= k,
            close_at(c@, start as int) == close_at(c@, k as int),
        decreases n - k,
    {
        if c[k] == '}' && c[k + 1] == '}' {
            return Some(k);
        }
        k = k + 1;
    }
    None
}

/// Render `{{variable}}` placeholders in a template string.
/// Only simple substitution — no loops, conditions, or expressions.
pub fn render_template(template: &str, vars: &Vars) -> (r: Result<String, RenderError>)
    ensures
        match r {
            Ok(s) => render_spec(template@, vars@) == Ok::<Seq<char>, RenderFailure>(s@),
            Err(e) => render_spec(template@, vars@) == Err::<Seq<char>, RenderFailure>(e@),
        },
{
    let ghost t = template@;
    let c = chars_of(template);
    let n = c.len();
    let mut out = String::new();
    let mut i: usize = 0;
    while i < n
        invariant
            t == template@,
            c@ == t,
            n == t.len(),
            i <= n,
            render_from(t, 0, vars@) == prefixed(out@, render_from(t, i as int, vars@)),
        decreases n - i,
    {
        if i + 1 < n && c[i] == '{' && c[i + 1] == '{' {
            let start = i + 2;
            let kk = find_close(&c, start);
            if kk.is_none() {
                let rest = String::from_str(template.substring_char(start, n));
                return Err(RenderError::Unclosed(rest));
            }
            let k = kk.unwrap();
            proof {
                lemma_close_at_bounds(t, start as int);
            }
            let key = trim_str(template.substring_char(start, k));
            if key.as_str().unicode_len() == 0 {
                return Err(RenderError::EmptyPlaceholder);
            }
            match resolve_var(vars, key.as_str()) {
                None => {
                    return Err(RenderError::MissingVariable(key));
                },
                Some(v) => {
                    let piece = value_to_text(v);
                    let ghost before = out@;
                    out.append(piece.as_str());
                    proof {
                        assert(out@ == before + value_text(v@));
                        lemma_prefixed_assoc(before, value_text(v@), render_from(t, k + 2, vars@));
                        assert(prefixed(before, prefixed(value_text(v@), render_from(t, k + 2, vars@)))
                            == prefixed(out@, render_from(t, k + 2, vars@)));
                    }
                    i = k + 2;
                },
            }
        } else {
            let ghost before = out@;
            out.append(template.substring_char(i, i + 1));
            proof {
                assert(template@.subrange(i as int, i + 1) =~= seq![t[i as int]]);
                lemma_prefixed_assoc(before, seq![t[i as int]], render_from(t, i + 1, vars@));
                assert(prefixed(before, prefixed(seq![t[i as int]], render_from(t, i + 1, vars@)))
                    == prefixed(out@, render_from(t, i + 1, vars@)));
            }
            i = i + 1;
        }
    }
    Ok(out)
}

/// The members of a JSON object; nothing for any other value.
pub open spec fn object_fields(v: JsonView) -> Seq<(Seq<char>, JsonView)> {
    match v {
        JsonView::Object(fields) => fields,
        _ => Seq::empty(),
    }
}

/// String variables as template values.
pub open spec fn string_vars(s: Seq<(String, String)>) -> Seq<(Seq<char>, JsonView)> {
    s.map_values(|p: (String, String)| (p.0@, JsonView::Str(p.1@)))
}

/// The members of a JSON object as template variables; any other value gives
/// none.
pub fn json_to_vars(input: &JsonValue) -> (r: Vars)
    ensures
        r@ == object_fields(input@),
{
    match input {
        JsonValue::Object(fields) => Vars { entries: copy_json_fields(fields) },
        _ => {
            let r = Vars { entries: Vec::new() };
            proof {
                assert(r@ =~= Seq::<(Seq<char>, JsonView)>::empty());
            }
            r
        },
    }
}

/// The variables a tool's templates see: the call's input members, then the
/// config's string variables; an input member shadows a config variable of
/// the same name.
pub fn merge_vars(input: &JsonValue, config_vars: &Vec<(String, String)>) -> (r: Vars)
    ensures
        r@ == object_fields(input@) + string_vars(config_vars@),
{
    let mut vars = json_to_vars(input);
    let mut i: usize = 0;
    while i < config_vars.len()
        invariant
            i <= config_vars@.len(),
            vars@ == object_fields(input@) + string_vars(config_vars@.take(i as int)),
        decreases config_vars@.len() - i,
    {
        let k = config_vars[i].0.clone();
        let v = JsonValue::Str(config_vars[i].1.clone());
        let ghost prev = vars.entries@;
        let ghost pair = (k, v);
        vars.entries.push((k, v));
        proof {
            assert(vars.entries@.drop_last() == prev);
            assert(vars.entries@.last() == pair);
            assert(view_json(pair.1) == JsonView::Str(config_vars@[i as int].1@));
            assert(vars@ == view_json_fields(prev).push((pair.0@, view_json(pair.1))));
            assert(string_vars(config_vars@.take(i + 1)) =~= string_vars(config_vars@.take(i as int)).push(
                (config_vars@[i as int].0@, JsonView::Str(config_vars@[i as int].1@)),
            ));
            assert(vars@ =~= object_fields(input@) + string_vars(config_vars@.take(i + 1)));
        }
        i = i + 1;
    }
    proof {
        assert(config_vars@.take(config_vars@.len() as int) =~= config_vars@);
    }
    vars
}

proof fn lemma_plain_from(t: Seq<char>, i: int, vars: Seq<(Seq<char>, JsonView)>)
    requires
        0 <= i <= t.len(),
        forall|j: int| !opens_at(t, j),
    ensures
        render_from(t, i, vars) == Ok::<Seq<char>, RenderFailure>(t.subrange(i, t.len() as int)),
    decreases t.len() - i,
{
    if i < t.len() {
        lemma_plain_from(t, i + 1, vars);
        assert(!opens_at(t, i));
        assert(seq![t[i]] + t.subrange(i + 1, t.len() as int) =~= t.subrange(i, t.len() as int));
    } else {
        assert(t.subrange(i, t.len() as int) =~= Seq::<char>::empty());
    }
}

/// Text with no `{{` in it renders to itself, whatever the variables.
pub proof fn law_plain_text_renders_unchanged(t: Seq<char>, vars: Seq<(Seq<char>, JsonView)>)
    requires
        forall|j: int| !opens_at(t, j),
    ensures
        render_spec(t, vars) == Ok::<Seq<char>, RenderFailure>(t),
{
    lemma_plain_from(t, 0, vars);
    assert(t.subrange(0, t.len() as int) =~= t);
}

proof fn lemma_close_after_key(t: Seq<char>, n: int, j: int)
    requires
        t.len() == n + 4,
        2 <= j <= n + 2,
        forall|x: int| 2 <= x < n + 2 ==> t[x] != '}',
        t[n + 2] == '}',
        t[n + 3] == '}',
    ensures
        close_at(t, j) == Some(n + 2),
    decreases n + 2 - j,
{
    if j < n + 2 {
        lemma_close_after_key(t, n, j + 1);
    }
}

/// A template that is one placeholder renders to the text of the value it
/// names: a string as it is, `true` or `false` for a boolean, `null` for
/// null, a number as written, and any other value as its JSON text.
pub proof fn law_placeholder_renders_value_text(k: Seq<char>, vars: Seq<(Seq<char>, JsonView)>, v: JsonView)
    requires
        k.len() > 0,
        !is_ws(k[0]),
        !is_ws(k[k.len() - 1]),
        forall|x: int| 0 <= x < k.len() ==> k[x] != '}',
        lookup(vars, k) == Some(v),
    ensures
        render_spec("{{"@ + k + "}}"@, vars) == Ok::<Seq<char>, RenderFailure>(
            match v {
                JsonView::Str(s) => s,
                JsonView::Bool(b) => if b {
                    "true"@
                } else {
                    "false"@
                },
                JsonView::Null => "null"@,
                JsonView::Number(digits) => digits,
                _ => json_text(v),
            },
        ),
{
    reveal_strlit("{{");
    reveal_strlit("}}");
    reveal_strlit("true");
    reveal_strlit("false");
    reveal_strlit("null");
    let t = "{{"@ + k + "}}"@;
    let n = k.len() as int;
    assert(t.len() == n + 4);
    assert(t[0] == '{' && t[1] == '{');
    assert(t[n + 2] == '}' && t[n + 3] == '}');
    assert forall|x: int| 2 <= x < n + 2 implies t[x] != '}' by {
        assert(t[x] == k[x - 2]);
    }
    lemma_close_after_key(t, n, 2);
    assert(t.subrange(2, n + 2) =~= k);
    assert(skip_ws(k, 0) == 0);
    assert(trim_start(k) =~= k);
    assert(skip_ws_back(k, n) == n);
    assert(trim(k) =~= k);
    assert(opens_at(t, 0));
    assert(render_from(t, n + 4, vars) == Ok::<Seq<char>, RenderFailure>(Seq::empty()));
    assert(value_text(v) + Seq::<char>::empty() =~= value_text(v));
}

} // verus!
