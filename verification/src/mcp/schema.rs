//! The JSON Schema a tool advertises for its input.
use crate::config::model::{
    lemma_property_views_index, lemma_property_views_len, property_view, property_views, view_strings,
    InputSchema, PropertyDef, PropertyView, ToolConfig,
};
use crate::json::{view_json, view_json_fields, view_json_seq, JsonValue, JsonView};
use crate::config::copy::{copy_json_fields, copy_json_seq};
use crate::template::render::{lookup_at, member};
use vstd::prelude::*;
use vstd::string::*;

verus! {

/// A member `key: v` when there is a value.
pub open spec fn opt_member(key: Seq<char>, v: Option<JsonView>) -> Seq<(Seq<char>, JsonView)> {
    match v {
        Some(x) => seq![(key, x)],
        None => Seq::empty(),
    }
}

pub open spec fn strings_json(s: Seq<Seq<char>>) -> Seq<JsonView> {
    s.map_values(|x: Seq<char>| JsonView::Str(x))
}

/// A property as a JSON Schema object: `type`, then each keyword that is set
/// (`description`, `enum`, `default`, `items`, non-empty `properties` and
/// `required`), then the other keywords as written.
pub open spec fn property_json(p: PropertyView) -> JsonView
    decreases p, 0int,
{
    JsonView::Object(
        seq![("type"@, JsonView::Str(p.prop_type))] + opt_member(
            "description"@,
            match p.description {
                Some(d) => Some(JsonView::Str(d)),
                None => None,
            },
        ) + opt_member(
            "enum"@,
            match p.enum_values {
                Some(v) => Some(JsonView::Array(v)),
                None => None,
            },
        ) + opt_member("default"@, p.default) + opt_member(
            "items"@,
            match p.items {
                Some(b) => Some(property_json(*b)),
                None => None,
            },
        ) + (if p.properties.len() == 0 {
            Seq::empty()
        } else {
            seq![("properties"@, JsonView::Object(properties_json(p.properties)))]
        }) + (if p.required.len() == 0 {
            Seq::empty()
        } else {
            seq![("required"@, JsonView::Array(strings_json(p.required)))]
        }) + p.extra,
    )
}

pub open spec fn properties_json(s: Seq<(Seq<char>, PropertyView)>) -> Seq<(Seq<char>, JsonView)>
    decreases s, 1int,
{
    if s.len() == 0 {
        Seq::empty()
    } else {
        proof {
            assert(decreases_to!(s => s[s.len() - 1]));
        }
        properties_json(s.drop_last()).push((s.last().0, property_json(s.last().1)))
    }
}

/// The input schema of a tool: its declared schema with `type`, `properties`
/// and `required`, or an empty object schema.
pub open spec fn input_schema_json(input: Option<(Seq<char>, Seq<(Seq<char>, PropertyView)>, Seq<Seq<char>>)>) -> JsonView {
    match input {
        Some((t, props, req)) => JsonView::Object(
            seq![
                ("type"@, JsonView::Str(t)),
                ("properties"@, JsonView::Object(properties_json(props))),
                ("required"@, JsonView::Array(strings_json(req))),
            ],
        ),
        None => JsonView::Object(
            seq![("type"@, JsonView::Str("object"@)), ("properties"@, JsonView::Object(Seq::empty()))],
        ),
    }
}

proof fn lemma_push_field(fields: Seq<(String, JsonValue)>, k: String, v: JsonValue)
    ensures
        view_json_fields(fields.push((k, v))) == view_json_fields(fields).push((k@, view_json(v))),
{
    assert(fields.push((k, v)).drop_last() =~= fields);
}

fn push_field(fields: &mut Vec<(String, JsonValue)>, k: &str, v: JsonValue)
    ensures
        view_json_fields(final(fields)@) == view_json_fields(old(fields)@).push((k@, view_json(v))),
{
    let key = String::from_str(k);
    proof {
        lemma_push_field(fields@, key, v);
    }
    fields.push((key, v));
}

fn strings_to_json(s: &Vec<String>) -> (r: JsonValue)
    ensures
        r@ == JsonView::Array(strings_json(view_strings(s@))),
{
    let mut out: Vec<JsonValue> = Vec::new();
    let mut i: usize = 0;
    proof {
        assert(strings_json(view_strings(s@.take(0))) =~= Seq::<JsonView>::empty());
    }
    while i < s.len()
        invariant
            i <= s@.len(),
            view_json_seq(out@) == strings_json(view_strings(s@.take(i as int))),
        decreases s@.len() - i,
    {
        let ghost prev = out@;
        let item = JsonValue::Str(s[i].clone());
        out.push(item);
        proof {
            assert(out@.drop_last() == prev);
            assert(view_json_seq(out@) == view_json_seq(prev).push(view_json(out@.last())));
            assert(view_json(out@.last()) == JsonView::Str(s@[i as int]@));
            assert(strings_json(view_strings(s@.take(i + 1))) =~= strings_json(view_strings(s@.take(i as int))).push(
                JsonView::Str(s@[i as int]@),
            ));
        }
        i = i + 1;
    }
    proof {
        assert(s@.take(s@.len() as int) =~= s@);
    }
    JsonValue::Array(out)
}

/// A property definition as a JSON Schema object.
pub fn property_to_json(p: &PropertyDef) -> (r: JsonValue)
    ensures
        r@ == property_json(property_view(*p)),
    decreases p, 1int,
{
    let ghost pv = property_view(*p);
    let mut fields: Vec<(String, JsonValue)> = Vec::new();
    push_field(&mut fields, "type", JsonValue::Str(p.prop_type.clone()));
    proof {
        assert(view_json_fields(fields@) =~= seq![("type"@, JsonView::Str(pv.prop_type))]);
    }
    let ghost mut expect = seq![("type"@, JsonView::Str(pv.prop_type))];
    match &p.description {
        Some(d) => push_field(&mut fields, "description", JsonValue::Str(d.clone())),
        None => {},
    }
    proof {
        expect = expect + opt_member(
            "description"@,
            match pv.description {
                Some(d) => Some(JsonView::Str(d)),
                None => None,
            },
        );
        assert(view_json_fields(fields@) =~= expect);
    }
    match &p.enum_values {
        Some(v) => push_field(&mut fields, "enum", JsonValue::Array(copy_json_seq(v))),
        None => {},
    }
    proof {
        expect = expect + opt_member(
            "enum"@,
            match pv.enum_values {
                Some(v) => Some(JsonView::Array(v)),
                None => None,
            },
        );
        assert(view_json_fields(fields@) =~= expect);
    }
    match &p.default {
        Some(v) => push_field(&mut fields, "default", v.duplicate()),
        None => {},
    }
    proof {
        expect = expect + opt_member("default"@, pv.default);
        assert(view_json_fields(fields@) =~= expect);
    }
    match &p.items {
        Some(b) => {
            proof {
                assert(decreases_to!(*p => p.items));
                assert(decreases_to!(p.items => p.items->0));
            }
            let item = property_to_json(b);
            push_field(&mut fields, "items", item);
        },
        None => {},
    }
    proof {
        expect = expect + opt_member(
            "items"@,
            match pv.items {
                Some(b) => Some(property_json(*b)),
                None => None,
            },
        );
        assert(view_json_fields(fields@) =~= expect);
        lemma_property_views_len(p.properties@);
    }
    if p.properties.len() > 0 {
        let props = properties_to_json(p);
        push_field(&mut fields, "properties", JsonValue::Object(props));
    }
    proof {
        expect = expect + (if pv.properties.len() == 0 {
            Seq::empty()
        } else {
            seq![("properties"@, JsonView::Object(properties_json(pv.properties)))]
        });
        assert(view_json_fields(fields@) =~= expect);
    }
    if p.required.len() > 0 {
        push_field(&mut fields, "required", strings_to_json(&p.required));
    }
    proof {
        expect = expect + (if pv.required.len() == 0 {
            Seq::empty()
        } else {
            seq![("required"@, JsonView::Array(strings_json(pv.required)))]
        });
        assert(view_json_fields(fields@) =~= expect);
    }
    let mut i: usize = 0;
    while i < p.extra.len()
        invariant
            i <= p.extra@.len(),
            pv == property_view(*p),
            view_json_fields(fields@) == expect + view_json_fields(p.extra@.take(i as int)),
        decreases p.extra@.len() - i,
    {
        let ghost before = fields@;
        let k = p.extra[i].0.clone();
        let v = p.extra[i].1.duplicate();
        proof {
            lemma_push_field(fields@, k, v);
        }
        fields.push((k, v));
        proof {
            assert(p.extra@.take(i + 1).drop_last() =~= p.extra@.take(i as int));
            assert(view_json_fields(p.extra@.take(i + 1)) == view_json_fields(p.extra@.take(i as int)).push(
                (p.extra@[i as int].0@, view_json(p.extra@[i as int].1)),
            ));
            assert(view_json_fields(fields@) =~= expect + view_json_fields(p.extra@.take(i + 1)));
        }
        i = i + 1;
    }
    proof {
        assert(p.extra@.take(p.extra@.len() as int) =~= p.extra@);
    }
    JsonValue::Object(fields)
}

/// The `properties` member of a property definition, as JSON members.
fn properties_to_json(p: &PropertyDef) -> (r: Vec<(String, JsonValue)>)
    ensures
        view_json_fields(r@) == properties_json(property_views(p.properties@)),
    decreases p, 0int,
{
    let mut out: Vec<(String, JsonValue)> = Vec::new();
    let mut i: usize = 0;
    while i < p.properties.len()
        invariant
            i <= p.properties@.len(),
            view_json_fields(out@) == properties_json(property_views(p.properties@.take(i as int))),
        decreases p.properties@.len() - i,
    {
        proof {
            assert(decreases_to!(*p => p.properties));
            assert(decreases_to!(p.properties => p.properties@));
            assert(decreases_to!(p.properties@ => p.properties@[i as int]));
            assert(decreases_to!(p.properties@[i as int] => p.properties@[i as int].1));
        }
        let k = p.properties[i].0.clone();
        let v = property_to_json(&p.properties[i].1);
        proof {
            lemma_push_field(out@, k, v);
            let t = p.properties@.take(i + 1);
            assert(t.drop_last() =~= p.properties@.take(i as int));
            lemma_property_views_len(t);
            lemma_property_views_index(t, i as int);
            assert(property_views(t).drop_last() =~= property_views(p.properties@.take(i as int))) by {
                lemma_property_views_len(p.properties@.take(i as int));
                assert forall|j: int| 0 <= j < i implies property_views(t)[j] == property_views(
                    p.properties@.take(i as int),
                )[j] by {
                    lemma_property_views_index(t, j);
                    lemma_property_views_index(p.properties@.take(i as int), j);
                }
            }
        }
        out.push((k, v));
        i = i + 1;
    }
    proof {
        assert(p.properties@.take(p.properties@.len() as int) =~= p.properties@);
    }
    out
}

proof fn lemma_lookup_after(
    prefix: Seq<(Seq<char>, JsonView)>,
    key: Seq<char>,
    v: JsonView,
    rest: Seq<(Seq<char>, JsonView)>,
    i: int,
)
    requires
        0 <= i <= prefix.len(),
        forall|x: int| 0 <= x < prefix.len() ==> prefix[x].0 != key,
    ensures
        lookup_at(prefix + seq![(key, v)] + rest, key, i) == Some(v),
    decreases prefix.len() - i,
{
    let s = prefix + seq![(key, v)] + rest;
    if i < prefix.len() {
        assert(s[i] == prefix[i]);
        lemma_lookup_after(prefix, key, v, rest, i + 1);
    } else {
        assert(s[i] == (key, v));
    }
}

/// The members of a property's schema object, part by part: `type`, then
/// `description`, `enum`, `default`, `items`, `properties`, `required`,
/// each present only when set, then the other keywords.
pub open spec fn schema_parts(p: PropertyView) -> Seq<Seq<(Seq<char>, JsonView)>> {
    seq![
        seq![("type"@, JsonView::Str(p.prop_type))],
        opt_member(
            "description"@,
            match p.description {
                Some(x) => Some(JsonView::Str(x)),
                None => None,
            },
        ),
        opt_member(
            "enum"@,
            match p.enum_values {
                Some(x) => Some(JsonView::Array(x)),
                None => None,
            },
        ),
        opt_member("default"@, p.default),
        opt_member(
            "items"@,
            match p.items {
                Some(b) => Some(property_json(*b)),
                None => None,
            },
        ),
        if p.properties.len() == 0 {
            Seq::empty()
        } else {
            seq![("properties"@, JsonView::Object(properties_json(p.properties)))]
        },
        if p.required.len() == 0 {
            Seq::empty()
        } else {
            seq![("required"@, JsonView::Array(strings_json(p.required)))]
        },
        p.extra,
    ]
}

/// The keyword names a schema object uses, in order.
pub open spec fn keyword_names() -> Seq<Seq<char>> {
    seq!["type"@, "description"@, "enum"@, "default"@, "items"@, "properties"@, "required"@]
}

/// Parts `a..b` joined in order.
pub open spec fn parts_range(q: Seq<Seq<(Seq<char>, JsonView)>>, a: int, b: int) -> Seq<(Seq<char>, JsonView)>
    decreases b - a,
{
    if a >= b {
        Seq::empty()
    } else {
        q[a] + parts_range(q, a + 1, b)
    }
}

proof fn lemma_parts_split(q: Seq<Seq<(Seq<char>, JsonView)>>, a: int, b: int, c: int)
    requires
        a <= b <= c,
    ensures
        parts_range(q, a, c) =~= parts_range(q, a, b) + parts_range(q, b, c),
    decreases b - a,
{
    if a < b {
        lemma_parts_split(q, a + 1, b, c);
    }
}

proof fn lemma_parts_keys(q: Seq<Seq<(Seq<char>, JsonView)>>, a: int, b: int, k: Seq<char>)
    requires
        forall|j: int, x: int| a <= j < b && 0 <= x < q[j].len() ==> (#[trigger] q[j][x]).0 != k,
    ensures
        forall|x: int| 0 <= x < parts_range(q, a, b).len() ==> (#[trigger] parts_range(q, a, b)[x]).0 != k,
    decreases b - a,
{
    if a < b {
        lemma_parts_keys(q, a + 1, b, k);
        let r = parts_range(q, a, b);
        assert forall|x: int| 0 <= x < r.len() implies (#[trigger] r[x]).0 != k by {
            if x < q[a].len() {
                assert(r[x] == q[a][x]);
            } else {
                assert(r[x] == parts_range(q, a + 1, b)[x - q[a].len()]);
            }
        }
    }
}

proof fn lemma_keyword_names_distinct()
    ensures
        forall|a: int, b: int| 0 <= a < 7 && 0 <= b < 7 && a != b ==> keyword_names()[a] != keyword_names()[b],
{
    reveal_strlit("type");
    reveal_strlit("description");
    reveal_strlit("enum");
    reveal_strlit("default");
    reveal_strlit("items");
    reveal_strlit("properties");
    reveal_strlit("required");
    let n = keyword_names();
    assert(n[0].len() == 4 && n[1].len() == 11 && n[2].len() == 4 && n[3].len() == 7 && n[4].len() == 5
        && n[5].len() == 10 && n[6].len() == 8);
    assert(n[0][0] != n[2][0]);
    assert forall|a: int, b: int| 0 <= a < 7 && 0 <= b < 7 && a != b implies n[a] != n[b] by {
        if n[a].len() == n[b].len() {
            assert((a == 0 && b == 2) || (a == 2 && b == 0));
            assert(n[a][0] != n[b][0]);
        }
    }
}

/// The schema object's members are its parts joined in order, and a
/// keyword's part holds at most one member, named by that keyword.
proof fn lemma_schema_parts(p: PropertyView)
    ensures
        property_json(p) == JsonView::Object(parts_range(schema_parts(p), 0, 8)),
        schema_parts(p).len() == 8,
        forall|i: int, x: int|
            0 <= i < 7 && 0 <= x < schema_parts(p)[i].len() ==> x == 0 && (#[trigger] schema_parts(p)[i][x]).0
                == keyword_names()[i],
        forall|i: int| 0 <= i < 7 ==> (#[trigger] schema_parts(p)[i]).len() <= 1,
{
    reveal_with_fuel(parts_range, 9);
    let q = schema_parts(p);
    assert(parts_range(q, 0, 8) =~= q[0] + q[1] + q[2] + q[3] + q[4] + q[5] + q[6] + q[7]);
}

/// A keyword part that is set gives the schema object's member of that name.
proof fn lemma_keyword_member(p: PropertyView, i: int)
    requires
        0 <= i < 7,
        schema_parts(p)[i].len() == 1,
    ensures
        member(property_json(p), keyword_names()[i]) == Some(schema_parts(p)[i][0].1),
{
    lemma_schema_parts(p);
    lemma_keyword_names_distinct();
    let q = schema_parts(p);
    let k = keyword_names()[i];
    lemma_parts_split(q, 0, i, 8);
    lemma_parts_split(q, i, i + 1, 8);
    reveal_with_fuel(parts_range, 2);
    assert(parts_range(q, i + 1, i + 1) =~= Seq::<(Seq<char>, JsonView)>::empty());
    assert(parts_range(q, i, i + 1) =~= q[i]);
    assert(q[i][0].0 == k);
    assert(q[i] =~= seq![(k, q[i][0].1)]);
    assert forall|j: int, x: int| 0 <= j < i && 0 <= x < q[j].len() implies (#[trigger] q[j][x]).0 != k by {
        assert(q[j][x].0 == keyword_names()[j]);
    }
    lemma_parts_keys(q, 0, i, k);
    let pre = parts_range(q, 0, i);
    let rest = parts_range(q, i + 1, 8);
    assert(parts_range(q, 0, 8) =~= pre + seq![(k, q[i][0].1)] + rest);
    lemma_lookup_after(pre, k, q[i][0].1, rest, 0);
}

/// The JSON Schema a property is advertised with carries each keyword that
/// is set: its `type`, its `description`, its `enum` values, its `default`,
/// its `items`, its nested `properties` and `required` names when there are
/// any, and every other keyword as written.
pub proof fn law_property_schema_keeps_its_keywords(p: PropertyView)
    ensures
        member(property_json(p), "type"@) == Some(JsonView::Str(p.prop_type)),
        p.description matches Some(d) ==> member(property_json(p), "description"@) == Some(JsonView::Str(d)),
        p.enum_values matches Some(v) ==> member(property_json(p), "enum"@) == Some(JsonView::Array(v)),
        p.default matches Some(v) ==> member(property_json(p), "default"@) == Some(v),
        p.items matches Some(b) ==> member(property_json(p), "items"@) == Some(property_json(*b)),
        p.properties.len() > 0 ==> member(property_json(p), "properties"@) == Some(
            JsonView::Object(properties_json(p.properties)),
        ),
        p.required.len() > 0 ==> member(property_json(p), "required"@) == Some(
            JsonView::Array(strings_json(p.required)),
        ),
        property_json(p) matches JsonView::Object(f) && forall|x: int|
            0 <= x < p.extra.len() ==> f.contains(#[trigger] p.extra[x]),
{
    let q = schema_parts(p);
    lemma_schema_parts(p);
    lemma_keyword_member(p, 0);
    if p.description is Some {
        lemma_keyword_member(p, 1);
    }
    if p.enum_values is Some {
        lemma_keyword_member(p, 2);
    }
    if p.default is Some {
        lemma_keyword_member(p, 3);
    }
    if p.items is Some {
        lemma_keyword_member(p, 4);
    }
    if p.properties.len() > 0 {
        lemma_keyword_member(p, 5);
    }
    if p.required.len() > 0 {
        lemma_keyword_member(p, 6);
    }
    lemma_parts_split(q, 0, 7, 8);
    reveal_with_fuel(parts_range, 2);
    assert(parts_range(q, 7, 8) =~= q[7]);
    let pre = parts_range(q, 0, 7);
    assert forall|x: int| 0 <= x < p.extra.len() implies parts_range(q, 0, 8).contains(#[trigger] p.extra[x]) by {
        assert(parts_range(q, 0, 8)[pre.len() + x] == p.extra[x]);
    }
}

} // verus!
