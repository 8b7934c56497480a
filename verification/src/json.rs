use vstd::prelude::*;

verus! {

/// A JSON value as the runtime's logic reads it. Numbers keep their
/// canonical decimal text (as `serde_json` prints it).
#[derive(Debug)]
pub enum JsonValue {
    Null,
    Bool(bool),
    Number(String),
    Str(String),
    Array(Vec<JsonValue>),
    Object(Vec<(String, JsonValue)>),
}

/// Mathematical model of a [`JsonValue`].
pub enum JsonView {
    Null,
    Bool(bool),
    Number(Seq<char>),
    Str(Seq<char>),
    Array(Seq<JsonView>),
    Object(Seq<(Seq<char>, JsonView)>),
}

pub open spec fn view_json(v: JsonValue) -> JsonView
    decreases v,
{
    match v {
        JsonValue::Null => JsonView::Null,
        JsonValue::Bool(b) => JsonView::Bool(b),
        JsonValue::Number(t) => JsonView::Number(t@),
        JsonValue::Str(s) => JsonView::Str(s@),
        JsonValue::Array(a) => JsonView::Array(view_json_seq(a@)),
        JsonValue::Object(o) => JsonView::Object(view_json_fields(o@)),
    }
}

pub open spec fn view_json_seq(s: Seq<JsonValue>) -> Seq<JsonView>
    decreases s,
{
    if s.len() == 0 {
        Seq::empty()
    } else {
        view_json_seq(s.drop_last()).push(view_json(s.last()))
    }
}

pub open spec fn view_json_fields(s: Seq<(String, JsonValue)>) -> Seq<(Seq<char>, JsonView)>
    decreases s,
{
    if s.len() == 0 {
        Seq::empty()
    } else {
        view_json_fields(s.drop_last()).push((s.last().0@, view_json(s.last().1)))
    }
}

impl View for JsonValue {
    type V = JsonView;

    open spec fn view(&self) -> JsonView {
        view_json(*self)
    }
}

impl JsonValue {
    /// A deep copy with the same model.
    pub fn duplicate(&self) -> (r: JsonValue)
        ensures
            r@ == self@,
        decreases self,
    {
        match self {
            JsonValue::Null => JsonValue::Null,
            JsonValue::Bool(b) => JsonValue::Bool(*b),
            JsonValue::Number(t) => JsonValue::Number(t.clone()),
            JsonValue::Str(t) => JsonValue::Str(t.clone()),
            JsonValue::Array(a) => {
                let mut out: Vec<JsonValue> = Vec::new();
                let mut i: usize = 0;
                while i < a.len()
                    invariant
                        i <= a.len(),
                        *self == JsonValue::Array(*a),
                        view_json_seq(out@) == view_json_seq(a@.take(i as int)),
                    decreases a.len() - i,
                {
                    proof {
                        assert(decreases_to!(*a => a@));
                        assert(decreases_to!(a@ => a@[i as int]));
                        assert(*self == JsonValue::Array(*a));
                        assert(decreases_to!(*self => self->Array_0));
                        assert(decreases_to!(*self => a@[i as int]));
                    }
                    let item = a[i].duplicate();
                    let ghost prev = out@;
                    out.push(item);
                    proof {
                        assert(a@.take(i + 1).drop_last() == a@.take(i as int));
                        assert(out@.drop_last() == prev);
                    }
                    i = i + 1;
                }
                proof {
                    assert(a@.take(a.len() as int) == a@);
                }
                JsonValue::Array(out)
            },
            JsonValue::Object(o) => {
                let mut out: Vec<(String, JsonValue)> = Vec::new();
                let mut i: usize = 0;
                while i < o.len()
                    invariant
                        i <= o.len(),
                        *self == JsonValue::Object(*o),
                        view_json_fields(out@) == view_json_fields(o@.take(i as int)),
                    decreases o.len() - i,
                {
                    let key = o[i].0.clone();
                    proof {
                        assert(decreases_to!(*o => o@));
                        assert(decreases_to!(o@ => o@[i as int]));
                        assert(decreases_to!(o@[i as int] => o@[i as int].1));
                        assert(*self == JsonValue::Object(*o));
                        assert(decreases_to!(*self => self->Object_0));
                        assert(decreases_to!(*self => o@[i as int].1));
                    }
                    let item = o[i].1.duplicate();
                    let ghost prev = out@;
                    out.push((key, item));
                    proof {
                        assert(o@.take(i + 1).drop_last() == o@.take(i as int));
                        assert(out@.drop_last() == prev);
                    }
                    i = i + 1;
                }
                proof {
                    assert(o@.take(o.len() as int) == o@);
                }
                JsonValue::Object(out)
            },
        }
    }
}


pub proof fn lemma_view_seq_index(s: Seq<JsonValue>, i: int)
    requires
        0 <= i < s.len(),
    ensures
        view_json_seq(s).len() == s.len(),
        view_json_seq(s)[i] == view_json(s[i]),
    decreases s.len(),
{
    lemma_view_seq_len(s);
    if i < s.len() - 1 {
        lemma_view_seq_index(s.drop_last(), i);
    }
}

pub proof fn lemma_view_seq_len(s: Seq<JsonValue>)
    ensures
        view_json_seq(s).len() == s.len(),
    decreases s.len(),
{
    if s.len() > 0 {
        lemma_view_seq_len(s.drop_last());
    }
}

pub proof fn lemma_view_fields_len2(s: Seq<(String, JsonValue)>)
    ensures
        view_json_fields(s).len() == s.len(),
    decreases s.len(),
{
    if s.len() > 0 {
        lemma_view_fields_len2(s.drop_last());
    }
}

pub proof fn lemma_view_fields_index2(s: Seq<(String, JsonValue)>, i: int)
    requires
        0 <= i < s.len(),
    ensures
        view_json_fields(s).len() == s.len(),
        view_json_fields(s)[i] == (s[i].0@, view_json(s[i].1)),
    decreases s.len(),
{
    lemma_view_fields_len2(s);
    if i < s.len() - 1 {
        lemma_view_fields_index2(s.drop_last(), i);
    }
}

/// Whether two values are the same JSON (members compared in order).
pub fn json_equal(a: &JsonValue, b: &JsonValue) -> (r: bool)
    ensures
        r == (a@ == b@),
    decreases a,
{
    match (a, b) {
        (JsonValue::Null, JsonValue::Null) => true,
        (JsonValue::Bool(x), JsonValue::Bool(y)) => *x == *y,
        (JsonValue::Number(x), JsonValue::Number(y)) => *x == *y,
        (JsonValue::Str(x), JsonValue::Str(y)) => *x == *y,
        (JsonValue::Array(x), JsonValue::Array(y)) => {
            proof {
                lemma_view_seq_len(x@);
                lemma_view_seq_len(y@);
            }
            if x.len() != y.len() {
                return false;
            }
            let mut i: usize = 0;
            while i < x.len()
                invariant
                    x.len() == y.len(),
                    i <= x.len(),
                    *a == JsonValue::Array(*x),
                    *b == JsonValue::Array(*y),
                    forall|j: int| 0 <= j < i ==> view_json(x@[j]) == view_json(y@[j]),
                decreases x.len() - i,
            {
                proof {
                    assert(decreases_to!(*a => a->Array_0));
                    assert(decreases_to!(*x => x@));
                    assert(decreases_to!(x@ => x@[i as int]));
                    assert(decreases_to!(*a => x@[i as int]));
                }
                if !json_equal(&x[i], &y[i]) {
                    proof {
                        lemma_view_seq_index(x@, i as int);
                        lemma_view_seq_index(y@, i as int);
                        assert(view_json_seq(x@)[i as int] != view_json_seq(y@)[i as int]);
                        assert(a@ == JsonView::Array(view_json_seq(x@)));
                        assert(b@ == JsonView::Array(view_json_seq(y@)));
                    }
                    return false;
                }
                i = i + 1;
            }
            proof {
                lemma_view_seq_len(x@);
                lemma_view_seq_len(y@);
                assert forall|j: int| 0 <= j < x@.len() implies view_json_seq(x@)[j] == view_json_seq(y@)[j] by {
                    lemma_view_seq_index(x@, j);
                    lemma_view_seq_index(y@, j);
                }
                assert(view_json_seq(x@) =~= view_json_seq(y@));
            }
            true
        },
        (JsonValue::Object(x), JsonValue::Object(y)) => {
            proof {
                lemma_view_fields_len2(x@);
                lemma_view_fields_len2(y@);
            }
            if x.len() != y.len() {
                return false;
            }
            let mut i: usize = 0;
            while i < x.len()
                invariant
                    x.len() == y.len(),
                    i <= x.len(),
                    *a == JsonValue::Object(*x),
                    *b == JsonValue::Object(*y),
                    forall|j: int| 0 <= j < i ==> (x@[j].0@, view_json(x@[j].1)) == (y@[j].0@, view_json(y@[j].1)),
                decreases x.len() - i,
            {
                proof {
                    assert(decreases_to!(*a => a->Object_0));
                    assert(decreases_to!(*x => x@));
                    assert(decreases_to!(x@ => x@[i as int]));
                    assert(decreases_to!(x@[i as int] => x@[i as int].1));
                    assert(decreases_to!(*a => x@[i as int].1));
                }
                if x[i].0 != y[i].0 || !json_equal(&x[i].1, &y[i].1) {
                    proof {
                        lemma_view_fields_index2(x@, i as int);
                        lemma_view_fields_index2(y@, i as int);
                        assert(view_json_fields(x@)[i as int] != view_json_fields(y@)[i as int]);
                        assert(a@ == JsonView::Object(view_json_fields(x@)));
                        assert(b@ == JsonView::Object(view_json_fields(y@)));
                    }
                    return false;
                }
                i = i + 1;
            }
            proof {
                assert forall|j: int| 0 <= j < x@.len() implies view_json_fields(x@)[j] == view_json_fields(y@)[j] by {
                    lemma_view_fields_index2(x@, j);
                    lemma_view_fields_index2(y@, j);
                }
                assert(view_json_fields(x@) =~= view_json_fields(y@));
            }
            true
        },
        _ => false,
    }
}

/// The JSON type of `serde_json`, carried only across the conversions below.
#[verifier::external_type_specification]
#[verifier::external_body]
pub struct ExSerdeValue(serde_json::Value);

/// Builds the `serde_json::Value` with the same content. Makes no claim; it
/// only feeds the trusted wrappers below. A number whose text `serde_json`
/// does not accept as a number is carried as a string.
#[verifier::external_body]
fn to_serde(v: &JsonValue) -> serde_json::Value {
    match v {
        JsonValue::Null => serde_json::Value::Null,
        JsonValue::Bool(b) => serde_json::Value::Bool(*b),
        JsonValue::Number(t) => match t.parse::<serde_json::Number>() {
            Ok(n) => serde_json::Value::Number(n),
            Err(_) => serde_json::Value::String(t.clone()),
        },
        JsonValue::Str(t) => serde_json::Value::String(t.clone()),
        JsonValue::Array(a) => serde_json::Value::Array(a.iter().map(to_serde).collect()),
        JsonValue::Object(o) => serde_json::Value::Object(o.iter().map(|(k, x)| (k.clone(), to_serde(x))).collect()),
    }
}

/// Builds the [`JsonValue`] with the same content as a `serde_json::Value`
/// (numbers keep the text that `serde_json` prints for them). Makes no claim;
/// it only feeds the trusted wrappers below.
#[verifier::external_body]
fn from_serde(v: serde_json::Value) -> JsonValue {
    match v {
        serde_json::Value::Null => JsonValue::Null,
        serde_json::Value::Bool(b) => JsonValue::Bool(b),
        serde_json::Value::Number(n) => JsonValue::Number(n.to_string()),
        serde_json::Value::String(t) => JsonValue::Str(t),
        serde_json::Value::Array(a) => JsonValue::Array(a.into_iter().map(from_serde).collect()),
        serde_json::Value::Object(o) => JsonValue::Object(o.into_iter().map(|(k, x)| (k, from_serde(x))).collect()),
    }
}

/// The compact JSON text that `serde_json` writes for a value (its `Display`).
pub uninterp spec fn json_text(v: JsonView) -> Seq<char>;

/// What `serde_json::from_str::<Value>` makes of a text: `None` when the text
/// is not one JSON document.
pub uninterp spec fn json_parse(s: Seq<char>) -> Option<JsonView>;

/// Serialises a value with `serde_json` (`Value::to_string`). The contract
/// only names the result: it is the same text for the same value.
#[verifier::external_body]
pub(crate) fn json_to_string(v: &JsonValue) -> (r: String)
    ensures
        r@ == json_text(v@),
{
    to_serde(v).to_string()
}

/// Parses a text with `serde_json::from_str::<Value>`. The contract names the
/// result: `None` exactly when the parse fails, and otherwise the parsed value.
#[verifier::external_body]
pub(crate) fn json_from_str(s: &str) -> (r: Option<JsonValue>)
    ensures
        r is None <==> json_parse(s@) is None,
        r matches Some(v) ==> json_parse(s@) == Some(v@),
{
    match serde_json::from_str::<serde_json::Value>(s) {
        Ok(v) => Some(from_serde(v)),
        Err(_) => None,
    }
}

/// The multi-line JSON text that `serde_json::to_string_pretty` writes for a
/// value.
pub uninterp spec fn json_pretty_text(v: JsonView) -> Seq<char>;

/// Serialises a value with `serde_json::to_string_pretty`; the contract names
/// the result. Writing a `serde_json::Value` cannot fail (its keys are
/// strings), so the fallback to an empty text is never taken.
#[verifier::external_body]
pub(crate) fn json_to_pretty_string(v: &JsonValue) -> (r: String)
    ensures
        r@ == json_pretty_text(v@),
{
    serde_json::to_string_pretty(&to_serde(v)).unwrap_or_default()
}

} // verus!
