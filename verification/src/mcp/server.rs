//! What the MCP server answers: the tools it lists, whether a call may run,
//! what a call's outcome becomes, and which resource a read names. The
//! protocol itself is spoken by the caller.
use crate::adapters::ToolResult;
use crate::config::copy::{copy_json_fields, copy_opt_string, copy_strings};
use crate::config::model::{
    view_opt_json, view_opt_schema, view_opt_string, view_strings, McpifyConfig, OutputParse, ResourceConfig,
    ResourceType, ToolAnnotations, ToolConfig,
};
use crate::json::{json_from_str, json_parse, view_json_fields, JsonValue, JsonView};
use crate::mcp::schema::{input_schema_json, property_to_json, properties_json, strings_json, property_json};
use crate::config::model::{property_view, property_views, lemma_property_views_index, lemma_property_views_len};
use crate::runtime::cache::{with_failure, with_stored, CacheSlot, CachedEntry};
use crate::runtime::registry::{ToolAvailability, ToolEntry, ToolRegistry};
use crate::supervisor::manager::SupervisorManager;
use crate::supervisor::child::ChildState;
use crate::text::{cat2, cat3, debug_string, debug_text, precedes};
use vstd::prelude::*;
use vstd::string::*;

verus! {

proof fn lemma_push_member(fields: Seq<(String, JsonValue)>, k: String, v: JsonValue)
    ensures
        view_json_fields(fields.push((k, v))) == view_json_fields(fields).push((k@, v@)),
{
    assert(fields.push((k, v)).drop_last() =~= fields);
}

fn strings_array(s: &Vec<String>) -> (r: JsonValue)
    ensures
        r@ == JsonView::Array(strings_json(view_strings(s@))),
{
    let mut out: Vec<JsonValue> = Vec::new();
    let mut i: usize = 0;
    proof {
        assert(strings_json(view_strings(s@.take(0))) =~= Seq::<JsonView>::empty());
    }
    while i < s.len()
        invariant
            i <= s@.len(),
            crate::json::view_json_seq(out@) == strings_json(view_strings(s@.take(i as int))),
        decreases s@.len() - i,
    {
        let ghost prev = out@;
        out.push(JsonValue::Str(s[i].clone()));
        proof {
            assert(out@.drop_last() == prev);
            assert(crate::json::view_json_seq(out@) == crate::json::view_json_seq(prev).push(out@.last()@));
            assert(strings_json(view_strings(s@.take(i + 1))) =~= strings_json(view_strings(s@.take(i as int))).push(
                JsonView::Str(s@[i as int]@),
            ));
        }
        i = i + 1;
    }
    proof {
        assert(s@.take(s@.len() as int) =~= s@);
    }
    JsonValue::Array(out)
}

fn schema_properties(props: &Vec<(String, crate::config::model::PropertyDef)>) -> (r: Vec<(String, JsonValue)>)
    ensures
        view_json_fields(r@) == properties_json(property_views(props@)),
{
    let mut out: Vec<(String, JsonValue)> = Vec::new();
    let mut i: usize = 0;
    while i < props.len()
        invariant
            i <= props@.len(),
            view_json_fields(out@) == properties_json(property_views(props@.take(i as int))),
        decreases props@.len() - i,
    {
        let k = props[i].0.clone();
        let v = property_to_json(&props[i].1);
        proof {
            lemma_push_member(out@, k, v);
            let t = props@.take(i + 1);
            assert(t.drop_last() =~= props@.take(i as int));
            lemma_property_views_len(t);
            lemma_property_views_index(t, i as int);
            assert(property_views(t).drop_last() =~= property_views(props@.take(i as int))) by {
                lemma_property_views_len(props@.take(i as int));
                assert forall|j: int| 0 <= j < i implies property_views(t)[j] == property_views(props@.take(i as int))[j] by {
                    lemma_property_views_index(t, j);
                    lemma_property_views_index(props@.take(i as int), j);
                }
            }
        }
        out.push((k, v));
        i = i + 1;
    }
    proof {
        assert(props@.take(props@.len() as int) =~= props@);
    }
    out
}

/// The JSON Schema a tool advertises for its input: its declared schema, or
/// an empty object schema when it declares none.
pub fn build_input_schema(config: &ToolConfig) -> (r: JsonValue)
    ensures
        r@ == input_schema_json(view_opt_schema(config.input)),
{
    let mut fields: Vec<(String, JsonValue)> = Vec::new();
    match &config.input {
        Some(schema) => {
            let t = JsonValue::Str(schema.schema_type.clone());
            let k1 = String::from_str("type");
            proof {
                lemma_push_member(fields@, k1, t);
            }
            fields.push((k1, t));
            let p = JsonValue::Object(schema_properties(&schema.properties));
            let k2 = String::from_str("properties");
            proof {
                lemma_push_member(fields@, k2, p);
            }
            fields.push((k2, p));
            let q = strings_array(&schema.required);
            let k3 = String::from_str("required");
            proof {
                lemma_push_member(fields@, k3, q);
                assert(fields@.len() == 2);
            }
            fields.push((k3, q));
            proof {
                assert(view_json_fields(fields@) =~= seq![
                    ("type"@, JsonView::Str(schema.schema_type@)),
                    ("properties"@, JsonView::Object(properties_json(property_views(schema.properties@)))),
                    ("required"@, JsonView::Array(strings_json(view_strings(schema.required@)))),
                ]);
            }
        },
        None => {
            let t = JsonValue::Str(String::from_str("object"));
            let k1 = String::from_str("type");
            proof {
                lemma_push_member(fields@, k1, t);
            }
            fields.push((k1, t));
            let empty: Vec<(String, JsonValue)> = Vec::new();
            let p = JsonValue::Object(empty);
            let k2 = String::from_str("properties");
            proof {
                assert(view_json_fields(empty@) =~= Seq::<(Seq<char>, JsonView)>::empty());
                lemma_push_member(fields@, k2, p);
            }
            fields.push((k2, p));
            proof {
                assert(view_json_fields(fields@) =~= seq![
                    ("type"@, JsonView::Str("object"@)),
                    ("properties"@, JsonView::Object(Seq::empty())),
                ]);
            }
        },
    }
    JsonValue::Object(fields)
}

/// The structured content a call returns: what the adapter produced itself,
/// else, when the tool declares `output.parse: json`, its stdout parsed as
/// JSON (nothing when stdout is not JSON), else nothing.
pub open spec fn structured_for(config: ToolConfig, result: ToolResult) -> Option<JsonView> {
    match result.structured {
        Some(v) => Some(v@),
        None => match config.output {
            Some(o) => if o.parse == OutputParse::Json {
                json_parse(result.stdout@)
            } else {
                None
            },
            None => None,
        },
    }
}

pub fn resolve_structured_content(config: &ToolConfig, result: &ToolResult) -> (r: Option<JsonValue>)
    ensures
        view_opt_json(r) == structured_for(*config, *result),
{
    if let Some(structured) = &result.structured {
        return Some(structured.duplicate());
    }
    match &config.output {
        Some(output) => {
            if output.parse == OutputParse::Json {
                json_from_str(result.stdout.as_str())
            } else {
                None
            }
        },
        None => None,
    }
}

/// What the server lists for one tool.
pub struct ToolListing {
    pub name: String,
    pub description: String,
    /// The members of the input schema object.
    pub input_schema: Vec<(String, JsonValue)>,
    pub annotations: Option<ToolAnnotations>,
    /// The members of the declared output schema, when it is an object.
    pub output_schema: Option<Vec<(String, JsonValue)>>,
}

/// The declared output schema's members, when it is a JSON object.
pub open spec fn output_schema_of(config: ToolConfig) -> Option<Seq<(Seq<char>, JsonView)>> {
    match config.output {
        Some(o) => match o.schema {
            Some(v) => match v@ {
                JsonView::Object(m) => Some(m),
                _ => None,
            },
            None => None,
        },
        None => None,
    }
}

pub open spec fn listing_of(l: ToolListing, config: ToolConfig) -> bool {
    &&& l.name@ == config.name@
    &&& l.description@ == config.description@
    &&& JsonView::Object(view_json_fields(l.input_schema@)) == input_schema_json(view_opt_schema(config.input))
    &&& l.annotations == config.annotations
    &&& match l.output_schema {
        Some(m) => output_schema_of(config) == Some(view_json_fields(m@)),
        None => output_schema_of(config) is None,
    }
}

pub fn tool_listing(config: &ToolConfig) -> (r: ToolListing)
    ensures
        listing_of(r, *config),
{
    let schema = build_input_schema(config);
    let input_schema = match schema {
        JsonValue::Object(m) => m,
        _ => Vec::new(),
    };
    let output_schema = match &config.output {
        Some(o) => match &o.schema {
            Some(JsonValue::Object(m)) => Some(copy_json_fields(m)),
            _ => None,
        },
        None => None,
    };
    ToolListing {
        name: config.name.clone(),
        description: config.description.clone(),
        input_schema,
        annotations: config.annotations,
        output_schema,
    }
}

/// The tools the server offers: the enabled ones, in name order.
pub fn list_tools(registry: &ToolRegistry) -> (r: Vec<ToolListing>)
    ensures
        forall|i: int|
            0 <= i < r@.len() ==> registry@.contains_key(#[trigger] r@[i].name@) && registry@[r@[i].name@].availability
                == ToolAvailability::Enabled && listing_of(r@[i], registry@[r@[i].name@].config),
        forall|k: Seq<char>|
            #[trigger] registry@.contains_key(k) && registry@[k].availability == ToolAvailability::Enabled
                ==> exists|i: int| 0 <= i < r@.len() && #[trigger] r@[i].name@ == k,
        forall|i: int, j: int| 0 <= i < j < r@.len() ==> precedes(#[trigger] r@[i].name@, #[trigger] r@[j].name@),
{
    let l = registry.list();
    let mut out: Vec<ToolListing> = Vec::new();
    let ghost mut idx: Seq<int> = Seq::empty();
    let mut i: usize = 0;
    while i < l.len()
        invariant
            i <= l@.len(),
            forall|j: int|
                0 <= j < l@.len() ==> registry@.contains_key(#[trigger] l@[j].config.name@) && *l@[j]
                    == registry@[l@[j].config.name@],
            forall|a: int, b: int|
                0 <= a < b < l@.len() ==> precedes(#[trigger] l@[a].config.name@, #[trigger] l@[b].config.name@),
            idx.len() == out@.len(),
            forall|a: int| 0 <= a < idx.len() ==> 0 <= #[trigger] idx[a] < i,
            forall|a: int| 0 <= a < idx.len() ==> (#[trigger] out@[a]).name@ == l@[idx[a]].config.name@,
            forall|a: int| 0 <= a < idx.len() ==> listing_of(#[trigger] out@[a], l@[idx[a]].config),
            forall|a: int| 0 <= a < idx.len() ==> l@[#[trigger] idx[a]].availability == ToolAvailability::Enabled,
            forall|a: int, b: int| 0 <= a < b < idx.len() ==> #[trigger] idx[a] < #[trigger] idx[b],
            forall|j: int|
                0 <= j < i && (#[trigger] l@[j]).availability == ToolAvailability::Enabled ==> exists|a: int|
                    0 <= a < idx.len() && idx[a] == j,
        decreases l@.len() - i,
    {
        let e = l[i];
        let take = match e.availability {
            ToolAvailability::Enabled => true,
            _ => false,
        };
        let ghost old_idx = idx;
        let ghost old_out = out@;
        if take {
            out.push(tool_listing(&e.config));
        }
        proof {
            if take {
                idx = idx.push(i as int);
            }
            assert forall|a: int| 0 <= a < idx.len() implies (#[trigger] out@[a]).name@ == l@[idx[a]].config.name@ by {
                if a < old_idx.len() {
                    assert(out@[a] == old_out[a]);
                    assert(idx[a] == old_idx[a]);
                } else {
                    assert(idx[a] == i);
                }
            }
            assert forall|a: int| 0 <= a < idx.len() implies listing_of(#[trigger] out@[a], l@[idx[a]].config) by {
                if a < old_idx.len() {
                    assert(out@[a] == old_out[a]);
                    assert(idx[a] == old_idx[a]);
                } else {
                    assert(idx[a] == i);
                }
            }
            assert forall|a: int| 0 <= a < idx.len() implies l@[#[trigger] idx[a]].availability
                == ToolAvailability::Enabled by {
                if a < old_idx.len() {
                    assert(idx[a] == old_idx[a]);
                } else {
                    assert(idx[a] == i);
                }
            }
            assert forall|j: int| 0 <= j < i + 1 && (#[trigger] l@[j]).availability == ToolAvailability::Enabled implies exists|
                a: int,
            | 0 <= a < idx.len() && idx[a] == j by {
                if j == i {
                    assert(idx[idx.len() - 1] == j);
                } else {
                    let a = choose|a: int| 0 <= a < old_idx.len() && old_idx[a] == j;
                    assert(idx[a] == j);
                }
            }
        }
        i = i + 1;
    }
    proof {
        assert forall|a: int| 0 <= a < out@.len() implies registry@.contains_key(#[trigger] out@[a].name@)
            && registry@[out@[a].name@].availability == ToolAvailability::Enabled && listing_of(
            out@[a],
            registry@[out@[a].name@].config,
        ) by {
            assert(out@[a].name@ == l@[idx[a]].config.name@);
            assert(listing_of(out@[a], l@[idx[a]].config));
        }
        assert forall|k: Seq<char>| #[trigger] registry@.contains_key(k) && registry@[k].availability
            == ToolAvailability::Enabled implies exists|a: int| 0 <= a < out@.len() && #[trigger] out@[a].name@ == k by {
            let j = choose|j: int| 0 <= j < l@.len() && #[trigger] l@[j].config.name@ == k;
            assert(l@[j].availability == ToolAvailability::Enabled);
            let a = choose|a: int| 0 <= a < idx.len() && idx[a] == j;
            assert(out@[a].name@ == k);
        }
        assert forall|a: int, b: int| 0 <= a < b < out@.len() implies precedes(
            #[trigger] out@[a].name@,
            #[trigger] out@[b].name@,
        ) by {
            assert(idx[a] < idx[b]);
            assert(precedes(l@[idx[a]].config.name@, l@[idx[b]].config.name@));
        }
    }
    out
}

/// A tool's availability as its `Debug` form shows it.
pub open spec fn availability_text(a: ToolAvailability) -> Seq<char> {
    match a {
        ToolAvailability::Enabled => "Enabled"@,
        ToolAvailability::Disabled => "Disabled"@,
        ToolAvailability::BlockedByDependency(s) => "BlockedByDependency("@ + debug_text(s@) + ")"@,
    }
}

pub fn availability_to_string(a: &ToolAvailability) -> (r: String)
    ensures
        r@ == availability_text(*a),
{
    match a {
        ToolAvailability::Enabled => String::from_str("Enabled"),
        ToolAvailability::Disabled => String::from_str("Disabled"),
        ToolAvailability::BlockedByDependency(s) => {
            let d = debug_string(s.as_str());
            cat3("BlockedByDependency(", d.as_str(), ")")
        },
    }
}

pub open spec fn service_online(sup: Map<Seq<char>, crate::supervisor::child::ChildProcess>, name: Seq<char>) -> bool {
    sup.contains_key(name) && sup[name].state == ChildState::Online
}

/// Index of the first dependency at or after `i` that is not online.
pub open spec fn first_offline(deps: Seq<String>, sup: Map<Seq<char>, crate::supervisor::child::ChildProcess>, i: int) -> Option<int>
    decreases deps.len() - i,
{
    if i < 0 || i >= deps.len() {
        None
    } else if !service_online(sup, deps[i]@) {
        Some(i)
    } else {
        first_offline(deps, sup, i + 1)
    }
}

proof fn lemma_first_offline_bounds(deps: Seq<String>, sup: Map<Seq<char>, crate::supervisor::child::ChildProcess>, i: int)
    requires
        0 <= i,
    ensures
        first_offline(deps, sup, i) matches Some(j) ==> i <= j < deps.len() && !service_online(sup, deps[j]@),
    decreases deps.len() - i,
{
    if i < deps.len() && service_online(sup, deps[i]@) {
        lemma_first_offline_bounds(deps, sup, i + 1);
    }
}

/// Whether a call of the tool `name` may run: the tool must exist, be
/// enabled, and every service it depends on must be online. Otherwise the
/// call is answered with the reason.
pub fn admit_call<'a>(registry: &'a ToolRegistry, supervisor: &SupervisorManager, name: &str) -> (r: Result<
    &'a ToolConfig,
    String,
>)
    ensures
        !registry@.contains_key(name@) ==> (r matches Err(m) && m@ == "tool not found: "@ + name@),
        registry@.contains_key(name@) && registry@[name@].availability != ToolAvailability::Enabled ==> (r matches Err(
            m,
        ) && m@ == "tool not available: "@ + availability_text(registry@[name@].availability)),
        registry@.contains_key(name@) && registry@[name@].availability == ToolAvailability::Enabled ==> match first_offline(
            registry@[name@].config.depends_on@,
            supervisor@,
            0,
        ) {
            Some(j) => r matches Err(m) && m@ == "dependency '"@ + registry@[name@].config.depends_on@[j]@
                + "' is not online"@,
            None => r matches Ok(c) && *c == registry@[name@].config,
        },
{
    let entry = match registry.get(name) {
        Some(e) => e,
        None => return Err(cat2("tool not found: ", name)),
    };
    match entry.availability {
        ToolAvailability::Enabled => {},
        _ => {
            let a = availability_to_string(&entry.availability);
            return Err(cat2("tool not available: ", a.as_str()));
        },
    }
    let deps = &entry.config.depends_on;
    let mut i: usize = 0;
    while i < deps.len()
        invariant
            i <= deps@.len(),
            *deps == entry.config.depends_on,
            registry@.contains_key(name@),
            *entry == registry@[name@],
            entry.availability == ToolAvailability::Enabled,
            first_offline(deps@, supervisor@, 0) == first_offline(deps@, supervisor@, i as int),
        decreases deps@.len() - i,
    {
        if !supervisor.is_child_online(deps[i].as_str()) {
            return Err(cat3("dependency '", deps[i].as_str(), "' is not online"));
        }
        i = i + 1;
    }
    Ok(&entry.config)
}

/// What a call answers: its texts, whether it failed, and its structured
/// content.
pub struct CallResponse {
    pub texts: Vec<String>,
    pub is_error: bool,
    pub structured: Option<JsonValue>,
}

/// A call turned away with `message`.
pub fn rejection(message: String) -> (r: CallResponse)
    ensures
        r.is_error,
        r.structured is None,
        view_strings(r.texts@) == seq![message@],
{
    let mut texts: Vec<String> = Vec::new();
    texts.push(message);
    proof {
        assert(view_strings(texts@) =~= seq![message@]);
    }
    CallResponse { texts, is_error: true, structured: None }
}

/// The answer to a call that ran: stdout, then any stderr marked as such,
/// failing when the tool failed; or the error that stopped the tool.
pub fn call_response(config: &ToolConfig, outcome: Result<ToolResult, String>) -> (r: CallResponse)
    ensures
        match outcome {
            Ok(t) => {
                &&& r.is_error == t.is_error
                &&& view_opt_json(r.structured) == structured_for(*config, t)
                &&& view_strings(r.texts@) == (if t.stderr@.len() == 0 {
                    seq![t.stdout@]
                } else {
                    seq![t.stdout@, "[stderr] "@ + t.stderr@]
                })
            },
            Err(e) => r.is_error && r.structured is None && view_strings(r.texts@) == seq!["error: "@ + e@],
        },
{
    match outcome {
        Ok(t) => {
            let structured = resolve_structured_content(config, &t);
            let mut texts: Vec<String> = Vec::new();
            let ghost out = t.stdout@;
            let ghost err = t.stderr@;
            let is_error = t.is_error;
            let has_stderr = t.stderr.unicode_len() > 0;
            let marked = cat2("[stderr] ", t.stderr.as_str());
            texts.push(t.stdout);
            if has_stderr {
                texts.push(marked);
            }
            proof {
                if err.len() == 0 {
                    assert(view_strings(texts@) =~= seq![out]);
                } else {
                    assert(view_strings(texts@) =~= seq![out, "[stderr] "@ + err]);
                }
            }
            CallResponse { texts, is_error, structured }
        },
        Err(e) => rejection(cat2("error: ", e.as_str())),
    }
}

/// Whether the server offers resources at all.
pub fn has_resources(config: &McpifyConfig) -> (r: bool)
    ensures
        r == (config.resources@.len() > 0),
{
    config.resources.len() > 0
}

/// What the server lists for one resource.
pub struct ResourceListing {
    pub uri: String,
    pub name: String,
    pub description: Option<String>,
    pub mime_type: Option<String>,
}

/// The configured resources, in config order.
pub fn list_resources(config: &McpifyConfig) -> (r: Vec<ResourceListing>)
    ensures
        r@.len() == config.resources@.len(),
        forall|i: int|
            0 <= i < r@.len() ==> {
                let (l, c) = (#[trigger] r@[i], config.resources@[i]);
                &&& l.uri@ == c.uri@
                &&& l.name@ == c.name@
                &&& view_opt_string(l.description) == view_opt_string(c.description)
                &&& view_opt_string(l.mime_type) == view_opt_string(c.mime_type)
            },
{
    let mut out: Vec<ResourceListing> = Vec::new();
    let mut i: usize = 0;
    while i < config.resources.len()
        invariant
            i <= config.resources@.len(),
            out@.len() == i,
            forall|j: int|
                0 <= j < i ==> {
                    let (l, c) = (#[trigger] out@[j], config.resources@[j]);
                    &&& l.uri@ == c.uri@
                    &&& l.name@ == c.name@
                    &&& view_opt_string(l.description) == view_opt_string(c.description)
                    &&& view_opt_string(l.mime_type) == view_opt_string(c.mime_type)
                },
        decreases config.resources@.len() - i,
    {
        let c = &config.resources[i];
        out.push(
            ResourceListing {
                uri: c.uri.clone(),
                name: c.name.clone(),
                description: copy_opt_string(&c.description),
                mime_type: copy_opt_string(&c.mime_type),
            },
        );
        i = i + 1;
    }
    out
}

/// Where a resource's content comes from.
pub enum ResourceSource {
    /// Read this file.
    File { path: String },
    /// Run this command and take its stdout.
    Exec { command: String, args: Vec<String> },
}

/// Why a resource read failed, as the protocol distinguishes it.
pub enum ResourceError {
    NotFound(String),
    Internal(String),
}

/// Index of the first resource at or after `i` with this uri.
pub open spec fn first_with_uri(rs: Seq<ResourceConfig>, uri: Seq<char>, i: int) -> Option<int>
    decreases rs.len() - i,
{
    if i < 0 || i >= rs.len() {
        None
    } else if rs[i].uri@ == uri {
        Some(i)
    } else {
        first_with_uri(rs, uri, i + 1)
    }
}

pub open spec fn text_or_empty(o: Option<String>) -> Seq<char> {
    match o {
        Some(s) => s@,
        None => Seq::empty(),
    }
}

/// The source a read of `uri` takes its content from, with the mime type to
/// report: the first resource with that uri; a missing path or command
/// counts as empty.
pub fn find_resource(config: &McpifyConfig, uri: &str) -> (r: Result<(ResourceSource, Option<String>), ResourceError>)
    ensures
        match first_with_uri(config.resources@, uri@, 0) {
            None => r matches Err(ResourceError::NotFound(m)) && m@ == "resource not found: "@ + uri@,
            Some(i) => {
                let c = config.resources@[i];
                r matches Ok((src, mime)) && view_opt_string(mime) == view_opt_string(c.mime_type) && match c.resource_type {
                    ResourceType::File => src matches ResourceSource::File { path } && path@ == text_or_empty(c.path),
                    ResourceType::Exec => src matches ResourceSource::Exec { command, args } && command@
                        == text_or_empty(c.command) && view_strings(args@) == view_strings(c.args@),
                }
            },
        },
{
    let rs = &config.resources;
    let mut i: usize = 0;
    while i < rs.len()
        invariant
            i <= rs@.len(),
            *rs == config.resources,
            first_with_uri(rs@, uri@, 0) == first_with_uri(rs@, uri@, i as int),
        decreases rs@.len() - i,
    {
        if crate::text::str_eq(rs[i].uri.as_str(), uri) {
            let c = &rs[i];
            let mime = copy_opt_string(&c.mime_type);
            let src = match c.resource_type {
                ResourceType::File => ResourceSource::File {
                    path: match &c.path {
                        Some(p) => p.clone(),
                        None => String::new(),
                    },
                },
                ResourceType::Exec => ResourceSource::Exec {
                    command: match &c.command {
                        Some(p) => p.clone(),
                        None => String::new(),
                    },
                    args: copy_strings(&c.args),
                },
            };
            return Ok((src, mime));
        }
        i = i + 1;
    }
    Err(ResourceError::NotFound(cat2("resource not found: ", uri)))
}

/// The error of a file resource that could not be read.
pub fn file_read_failure(path: &str, error: &str) -> (r: ResourceError)
    ensures
        r matches ResourceError::Internal(m) && m@ == "failed to read file "@ + path@ + ": "@ + error@,
{
    let mut m = cat3("failed to read file ", path, ": ");
    m.append(error);
    ResourceError::Internal(m)
}

/// The error of an exec resource whose command could not be run.
pub fn exec_read_failure(command: &str, error: &str) -> (r: ResourceError)
    ensures
        r matches ResourceError::Internal(m) && m@ == "failed to exec "@ + command@ + ": "@ + error@,
{
    let mut m = cat3("failed to exec ", command, ": ");
    m.append(error);
    ResourceError::Internal(m)
}

/// The value of member `k` of an object, when there is one.
pub open spec fn member_of(v: JsonView, k: Seq<char>) -> Option<JsonView> {
    crate::template::render::member(v, k)
}

/// Whether the call's arguments set `k` to `true`.
pub open spec fn flag_set(input: JsonView, k: Seq<char>) -> bool {
    member_of(input, k) == Some(JsonView::Bool(true))
}

fn flag_is_set(input: &JsonValue, k: &str) -> (r: bool)
    ensures
        r == flag_set(input@, k@),
{
    match input {
        JsonValue::Object(fields) => {
            let key = String::from_str(k);
            match crate::template::render::lookup_entry(fields, &key) {
                Some(JsonValue::Bool(b)) => *b,
                _ => false,
            }
        },
        _ => false,
    }
}

/// An object without its members named `k`; any other value as it is.
pub open spec fn without_member(v: JsonView, k: Seq<char>) -> JsonView {
    match v {
        JsonView::Object(fields) => JsonView::Object(fields.filter(|m: (Seq<char>, JsonView)| m.0 != k)),
        _ => v,
    }
}

fn remove_member(input: &JsonValue, k: &str) -> (r: JsonValue)
    ensures
        r@ == without_member(input@, k@),
{
    match input {
        JsonValue::Object(fields) => {
            let mut out: Vec<(String, JsonValue)> = Vec::new();
            let mut i: usize = 0;
            proof {
                assert(view_json_fields(fields@).take(0).filter(|m: (Seq<char>, JsonView)| m.0 != k@) =~= Seq::<
                    (Seq<char>, JsonView),
                >::empty());
                crate::template::render::lemma_view_fields_len(fields@);
            }
            while i < fields.len()
                invariant
                    i <= fields@.len(),
                    view_json_fields(fields@).len() == fields@.len(),
                    view_json_fields(out@) == view_json_fields(fields@).take(i as int).filter(
                        |m: (Seq<char>, JsonView)| m.0 != k@,
                    ),
                decreases fields@.len() - i,
            {
                proof {
                    crate::template::render::lemma_view_fields_index(fields@, i as int);
                    let fs = view_json_fields(fields@);
                    assert(fs.take(i + 1).drop_last() =~= fs.take(i as int));
                    reveal(Seq::filter);
                }
                if !crate::text::str_eq(fields[i].0.as_str(), k) {
                    let key = fields[i].0.clone();
                    let val = fields[i].1.duplicate();
                    proof {
                        lemma_push_member(out@, key, val);
                    }
                    out.push((key, val));
                }
                i = i + 1;
            }
            proof {
                assert(view_json_fields(fields@).take(fields@.len() as int) =~= view_json_fields(fields@));
            }
            JsonValue::Object(out)
        },
        _ => input.duplicate(),
    }
}

/// What happens to a call before its tool runs.
pub enum GateDecision {
    /// Run the tool with this input.
    Proceed(JsonValue),
    /// Ask the user to confirm first (the client can be asked).
    AskUser,
    /// Refuse the call with this message.
    Refuse(String),
}

/// A destructive tool runs only with the user's consent: the client is asked
/// when it can be; otherwise the call must carry `confirm: true`, which is
/// taken out of the input before the tool runs. Any other tool runs as
/// called.
pub fn destructive_gate(config: &ToolConfig, input: &JsonValue, can_elicit: bool) -> (r: GateDecision)
    ensures
        !crate::config::validate::is_destructive(*config) ==> (r matches GateDecision::Proceed(v) && v@ == input@),
        crate::config::validate::is_destructive(*config) && can_elicit ==> r is AskUser,
        crate::config::validate::is_destructive(*config) && !can_elicit ==> if flag_set(input@, "confirm"@) {
            r matches GateDecision::Proceed(v) && v@ == without_member(input@, "confirm"@)
        } else {
            r matches GateDecision::Refuse(m) && m@ == "tool '"@ + config.name@
                + "' is destructive: call it with \"confirm\": true to run it"@
        },
{
    let destructive = match &config.annotations {
        Some(a) => match a.destructive {
            Some(d) => d,
            None => false,
        },
        None => false,
    };
    if !destructive {
        return GateDecision::Proceed(input.duplicate());
    }
    if can_elicit {
        return GateDecision::AskUser;
    }
    if flag_is_set(input, "confirm") {
        GateDecision::Proceed(remove_member(input, "confirm"))
    } else {
        GateDecision::Refuse(
            cat3("tool '", config.name.as_str(), "' is destructive: call it with \"confirm\": true to run it"),
        )
    }
}

/// The question put to the user before a destructive tool runs.
pub fn confirmation_prompt(config: &ToolConfig) -> (r: String)
    ensures
        r@ == "Run destructive tool '"@ + config.name@ + "'?"@,
{
    cat3("Run destructive tool '", config.name.as_str(), "'?")
}

/// What the user's answer means: only an acceptance lets the tool run.
pub fn confirmation_verdict(config: &ToolConfig, accepted: bool) -> (r: Result<(), String>)
    ensures
        accepted ==> r is Ok,
        !accepted ==> (r matches Err(m) && m@ == "tool '"@ + config.name@ + "' was declined by the user"@),
{
    if accepted {
        Ok(())
    } else {
        Err(cat3("tool '", config.name.as_str(), "' was declined by the user"))
    }
}

/// How a call of a tool is served.
#[derive(Debug, Clone, Copy, PartialEq, Eq, Structural)]
pub enum CacheMode {
    /// The tool is not cached: run it.
    Direct,
    /// Serve the stored result.
    Stored,
    /// Run it now (empty input) and store the result, then serve it.
    Fill,
}

/// A cached tool serves its stored result, unless there is none yet or the
/// call asks for `refresh: true`; then it is fetched first.
pub open spec fn cache_mode_of(config: ToolConfig, input: JsonView, stored: bool) -> CacheMode {
    if config.cache is None {
        CacheMode::Direct
    } else if flag_set(input, "refresh"@) || !stored {
        CacheMode::Fill
    } else {
        CacheMode::Stored
    }
}

pub fn cache_mode(config: &ToolConfig, input: &JsonValue, stored: bool) -> (r: CacheMode)
    ensures
        r == cache_mode_of(*config, input@, stored),
{
    if config.cache.is_none() {
        return CacheMode::Direct;
    }
    if flag_is_set(input, "refresh") || !stored {
        CacheMode::Fill
    } else {
        CacheMode::Stored
    }
}

proof fn lemma_first_offline_found(deps: Seq<String>, sup: Map<Seq<char>, crate::supervisor::child::ChildProcess>, i: int, j: int)
    requires
        0 <= i <= j < deps.len(),
        !service_online(sup, deps[j]@),
    ensures
        first_offline(deps, sup, i) is Some,
    decreases j - i,
{
    if service_online(sup, deps[i]@) {
        lemma_first_offline_found(deps, sup, i + 1, j);
    }
}

/// A tool stays blocked while any service it depends on is not online, and a
/// tool whose services are all online is not blocked by them.
pub proof fn law_dependencies_gate_calls(deps: Seq<String>, sup: Map<Seq<char>, crate::supervisor::child::ChildProcess>)
    ensures
        (exists|j: int| 0 <= j < deps.len() && !service_online(sup, #[trigger] deps[j]@)) ==> first_offline(
            deps,
            sup,
            0,
        ) is Some,
        (forall|j: int| 0 <= j < deps.len() ==> service_online(sup, #[trigger] deps[j]@)) ==> first_offline(
            deps,
            sup,
            0,
        ) is None,
{
    if exists|j: int| 0 <= j < deps.len() && !service_online(sup, #[trigger] deps[j]@) {
        let j = choose|j: int| 0 <= j < deps.len() && !service_online(sup, #[trigger] deps[j]@);
        lemma_first_offline_found(deps, sup, 0, j);
    }
    lemma_first_offline_bounds(deps, sup, 0);
}

/// Caching across calls of a cached tool: with nothing stored a call
/// fetches; once a result is stored, a plain call (one without
/// `refresh: true`) is served that result, while a call with `refresh: true`
/// fetches afresh, and once that fresh result is stored, later plain calls
/// are served it. A stored result stays when another tool's result is
/// stored, and when a later refresh of this tool fails.
pub proof fn law_stored_result_is_served(
    m: Map<Seq<char>, CacheSlot>,
    config: ToolConfig,
    name: String,
    e: CachedEntry,
    fresh: CachedEntry,
    input: JsonView,
    other: String,
    e2: CachedEntry,
    error: String,
)
    requires
        config.cache is Some,
    ensures
        !m.contains_key(name@) ==> cache_mode_of(config, input, m.contains_key(name@)) == CacheMode::Fill,
        with_stored(m, name, e).contains_key(name@),
        with_stored(m, name, e)[name@].entry == e,
        !flag_set(input, "refresh"@) ==> cache_mode_of(config, input, with_stored(m, name, e).contains_key(name@))
            == CacheMode::Stored,
        flag_set(input, "refresh"@) ==> cache_mode_of(config, input, with_stored(m, name, e).contains_key(name@))
            == CacheMode::Fill,
        with_stored(with_stored(m, name, e), name, fresh)[name@].entry == fresh,
        !flag_set(input, "refresh"@) ==> cache_mode_of(
            config,
            input,
            with_stored(with_stored(m, name, e), name, fresh).contains_key(name@),
        ) == CacheMode::Stored,
        other@ != name@ ==> with_stored(with_stored(m, name, e), other, e2)[name@].entry == e,
        with_failure(with_stored(m, name, e), name@, error)[name@].entry.result == e.result,
{
}

} // verus!
