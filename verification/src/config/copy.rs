//! Deep copies of configuration values, each proved to keep the model.
use crate::config::model::{
    lemma_property_views_index, lemma_property_views_len, property_view, property_views, same_tool, view_opt_auth,
    view_opt_json, view_opt_output, view_opt_schema, view_opt_string, view_pairs, view_steps, view_strings,
    AuthConfig, HealthcheckConfig, InputSchema, OutputConfig, PipelineStep, PropertyDef, ServiceConfig, StrMap,
    ToolConfig, same_service, view_opt_healthcheck,
};
use crate::json::{view_json_fields, view_json_seq, JsonValue};
use vstd::prelude::*;

verus! {

pub fn copy_strings(v: &Vec<String>) -> (r: Vec<String>)
    ensures
        r@ == v@,
        view_strings(r@) == view_strings(v@),
{
    let mut out: Vec<String> = Vec::new();
    let mut i: usize = 0;
    while i < v.len()
        invariant
            i <= v.len(),
            out@ == v@.take(i as int),
        decreases v.len() - i,
    {
        out.push(v[i].clone());
        proof {
            assert(out@ =~= v@.take(i + 1));
        }
        i = i + 1;
    }
    proof {
        assert(v@.take(v.len() as int) =~= v@);
    }
    out
}

pub fn copy_pairs(v: &StrMap) -> (r: StrMap)
    ensures
        r@ == v@,
        view_pairs(r@) == view_pairs(v@),
{
    let mut out: StrMap = Vec::new();
    let mut i: usize = 0;
    while i < v.len()
        invariant
            i <= v.len(),
            out@ == v@.take(i as int),
        decreases v.len() - i,
    {
        let k = v[i].0.clone();
        let x = v[i].1.clone();
        out.push((k, x));
        proof {
            assert(out@ =~= v@.take(i + 1));
        }
        i = i + 1;
    }
    proof {
        assert(v@.take(v.len() as int) =~= v@);
    }
    out
}

pub fn copy_opt_string(o: &Option<String>) -> (r: Option<String>)
    ensures
        r == *o,
        view_opt_string(r) == view_opt_string(*o),
{
    match o {
        Some(s) => Some(s.clone()),
        None => None,
    }
}

pub fn copy_opt_json(o: &Option<JsonValue>) -> (r: Option<JsonValue>)
    ensures
        view_opt_json(r) == view_opt_json(*o),
{
    match o {
        Some(v) => Some(v.duplicate()),
        None => None,
    }
}

pub fn copy_json_seq(v: &Vec<JsonValue>) -> (r: Vec<JsonValue>)
    ensures
        view_json_seq(r@) == view_json_seq(v@),
{
    let mut out: Vec<JsonValue> = Vec::new();
    let mut i: usize = 0;
    while i < v.len()
        invariant
            i <= v.len(),
            view_json_seq(out@) == view_json_seq(v@.take(i as int)),
        decreases v.len() - i,
    {
        let item = v[i].duplicate();
        let ghost prev = out@;
        out.push(item);
        proof {
            assert(v@.take(i + 1).drop_last() == v@.take(i as int));
            assert(out@.drop_last() == prev);
        }
        i = i + 1;
    }
    proof {
        assert(v@.take(v.len() as int) == v@);
    }
    out
}

pub fn copy_json_fields(v: &Vec<(String, JsonValue)>) -> (r: Vec<(String, JsonValue)>)
    ensures
        view_json_fields(r@) == view_json_fields(v@),
{
    let mut out: Vec<(String, JsonValue)> = Vec::new();
    let mut i: usize = 0;
    while i < v.len()
        invariant
            i <= v.len(),
            view_json_fields(out@) == view_json_fields(v@.take(i as int)),
        decreases v.len() - i,
    {
        let k = v[i].0.clone();
        let item = v[i].1.duplicate();
        let ghost prev = out@;
        out.push((k, item));
        proof {
            assert(v@.take(i + 1).drop_last() == v@.take(i as int));
            assert(out@.drop_last() == prev);
        }
        i = i + 1;
    }
    proof {
        assert(v@.take(v.len() as int) == v@);
    }
    out
}

/// A deep copy of a property definition.
pub fn copy_property(p: &PropertyDef) -> (r: PropertyDef)
    ensures
        property_view(r) == property_view(*p),
    decreases p,
{
    let enum_values = match &p.enum_values {
        Some(v) => Some(copy_json_seq(v)),
        None => None,
    };
    let items = match &p.items {
        Some(b) => {
            proof {
                assert(decreases_to!(*p => p.items));
                assert(decreases_to!(p.items => p.items->0));
            }
            Some(Box::new(copy_property(b)))
        },
        None => None,
    };
    let mut properties: Vec<(String, PropertyDef)> = Vec::new();
    let mut i: usize = 0;
    while i < p.properties.len()
        invariant
            i <= p.properties.len(),
            property_views(properties@) == property_views(p.properties@.take(i as int)),
        decreases p.properties.len() - i,
    {
        proof {
            assert(decreases_to!(*p => p.properties));
            assert(decreases_to!(p.properties => p.properties@));
            assert(decreases_to!(p.properties@ => p.properties@[i as int]));
            assert(decreases_to!(p.properties@[i as int] => p.properties@[i as int].1));
        }
        let k = p.properties[i].0.clone();
        let d = copy_property(&p.properties[i].1);
        let ghost prev = properties@;
        properties.push((k, d));
        proof {
            assert(p.properties@.take(i + 1).drop_last() == p.properties@.take(i as int));
            assert(properties@.drop_last() == prev);
        }
        i = i + 1;
    }
    proof {
        assert(p.properties@.take(p.properties.len() as int) == p.properties@);
    }
    PropertyDef {
        prop_type: p.prop_type.clone(),
        description: copy_opt_string(&p.description),
        enum_values,
        default: copy_opt_json(&p.default),
        items,
        properties,
        required: copy_strings(&p.required),
        extra: copy_json_fields(&p.extra),
    }
}

pub fn copy_properties(v: &Vec<(String, PropertyDef)>) -> (r: Vec<(String, PropertyDef)>)
    ensures
        property_views(r@) == property_views(v@),
{
    let mut out: Vec<(String, PropertyDef)> = Vec::new();
    let mut i: usize = 0;
    while i < v.len()
        invariant
            i <= v.len(),
            property_views(out@) == property_views(v@.take(i as int)),
        decreases v.len() - i,
    {
        let k = v[i].0.clone();
        let d = copy_property(&v[i].1);
        let ghost prev = out@;
        out.push((k, d));
        proof {
            assert(v@.take(i + 1).drop_last() == v@.take(i as int));
            assert(out@.drop_last() == prev);
        }
        i = i + 1;
    }
    proof {
        assert(v@.take(v.len() as int) == v@);
    }
    out
}

pub fn copy_schema(o: &Option<InputSchema>) -> (r: Option<InputSchema>)
    ensures
        view_opt_schema(r) == view_opt_schema(*o),
{
    match o {
        Some(s) => Some(
            InputSchema {
                schema_type: s.schema_type.clone(),
                properties: copy_properties(&s.properties),
                required: copy_strings(&s.required),
            },
        ),
        None => None,
    }
}

pub fn copy_auth(o: &Option<AuthConfig>) -> (r: Option<AuthConfig>)
    ensures
        r == *o,
        view_opt_auth(r) == view_opt_auth(*o),
{
    match o {
        Some(AuthConfig::Bearer { token }) => Some(AuthConfig::Bearer { token: token.clone() }),
        Some(AuthConfig::Basic { username, password }) => Some(
            AuthConfig::Basic { username: username.clone(), password: password.clone() },
        ),
        Some(AuthConfig::ApiKey { header, value }) => Some(
            AuthConfig::ApiKey { header: header.clone(), value: value.clone() },
        ),
        None => None,
    }
}

pub fn copy_steps(v: &Vec<PipelineStep>) -> (r: Vec<PipelineStep>)
    ensures
        view_steps(r@) == view_steps(v@),
{
    let mut out: Vec<PipelineStep> = Vec::new();
    let mut i: usize = 0;
    while i < v.len()
        invariant
            i <= v.len(),
            out.len() == i,
            forall|j: int| 0 <= j < i ==> view_steps(out@)[j] == view_steps(v@)[j],
        decreases v.len() - i,
    {
        let step = PipelineStep {
            id: copy_opt_string(&v[i].id),
            tool: v[i].tool.clone(),
            input: copy_pairs(&v[i].input),
        };
        out.push(step);
        i = i + 1;
    }
    proof {
        assert(view_steps(out@) =~= view_steps(v@));
    }
    out
}

pub fn copy_output(o: &Option<OutputConfig>) -> (r: Option<OutputConfig>)
    ensures
        view_opt_output(r) == view_opt_output(*o),
{
    match o {
        Some(c) => Some(OutputConfig { parse: c.parse, schema: copy_opt_json(&c.schema) }),
        None => None,
    }
}

/// A deep copy of a tool definition.
pub fn copy_tool(t: &ToolConfig) -> (r: ToolConfig)
    ensures
        same_tool(r, *t),
        r.name == t.name,
        r.enabled == t.enabled,
        r.tool_type == t.tool_type,
{
    ToolConfig {
        name: t.name.clone(),
        tool_type: t.tool_type,
        description: t.description.clone(),
        command: copy_opt_string(&t.command),
        args: copy_strings(&t.args),
        cwd: copy_opt_string(&t.cwd),
        env: copy_pairs(&t.env),
        method: t.method,
        url: copy_opt_string(&t.url),
        headers: copy_pairs(&t.headers),
        query_params: copy_pairs(&t.query_params),
        auth: copy_auth(&t.auth),
        body: copy_opt_string(&t.body),
        driver: t.driver,
        dsn: copy_opt_string(&t.dsn),
        query: copy_opt_string(&t.query),
        steps: copy_steps(&t.steps),
        timeout_ms: t.timeout_ms,
        depends_on: copy_strings(&t.depends_on),
        enabled: t.enabled,
        input: copy_schema(&t.input),
        retry: t.retry,
        annotations: t.annotations,
        output: copy_output(&t.output),
        cache: t.cache,
    }
}

/// A deep copy of a service definition.
pub fn copy_service(s: &ServiceConfig) -> (r: ServiceConfig)
    ensures
        same_service(r, *s),
        r.name == s.name,
        r.autostart == s.autostart,
        r.restart == s.restart,
        view_opt_healthcheck(r.healthcheck) == view_opt_healthcheck(s.healthcheck),
{
    let healthcheck = match &s.healthcheck {
        Some(h) => Some(
            HealthcheckConfig {
                check_type: h.check_type,
                url: copy_opt_string(&h.url),
                interval_ms: h.interval_ms,
                timeout_ms: h.timeout_ms,
            },
        ),
        None => None,
    };
    ServiceConfig {
        name: s.name.clone(),
        command: s.command.clone(),
        args: copy_strings(&s.args),
        cwd: s.cwd.clone(),
        env: copy_pairs(&s.env),
        autostart: s.autostart,
        restart: s.restart,
        healthcheck,
    }
}

} // verus!
