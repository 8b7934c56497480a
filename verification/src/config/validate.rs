use crate::config::model::{
    view_strings, HealthcheckType, McpifyConfig, PipelineStep, PropertyDef, ResourceConfig,
    ResourceType, ServiceConfig, ToolConfig, ToolType,
};
use crate::json::JsonValue;
use crate::template::render::{close_at, find_close};
use crate::text::{cat2, cat3, cat5, chars_of, decimal, str_eq, trim, trim_str, u64_to_decimal};
use vstd::prelude::*;
use vstd::string::*;

verus! {

/// A non-fatal finding of [`validate`].
pub struct ValidationWarning {
    pub message: String,
}

/// The errors that make a config invalid, in the order they were found.
pub struct ValidationFailure {
    pub errors: Vec<String>,
}

pub open spec fn join_lines(errs: Seq<Seq<char>>) -> Seq<char>
    decreases errs.len(),
{
    if errs.len() == 0 {
        Seq::empty()
    } else if errs.len() == 1 {
        errs[0]
    } else {
        join_lines(errs.drop_last()) + "\n  - "@ + errs.last()
    }
}

impl ValidationFailure {
    /// The message the failure is reported with: every error on a line of
    /// its own.
    pub fn to_string(&self) -> (r: String)
        ensures
            r@ == "config validation failed:\n  - "@ + join_lines(view_strings(self.errors@)),
    {
        let mut s = String::from_str("config validation failed:\n  - ");
        let ghost head = s@;
        let mut i: usize = 0;
        while i < self.errors.len()
            invariant
                i <= self.errors.len(),
                s@ == head + join_lines(view_strings(self.errors@.take(i as int))),
            decreases self.errors.len() - i,
        {
            let ghost before = s@;
            if i > 0 {
                s.append("\n  - ");
            }
            s.append(self.errors[i].as_str());
            proof {
                let t = view_strings(self.errors@.take(i + 1));
                assert(t.drop_last() =~= view_strings(self.errors@.take(i as int)));
                if i == 0 {
                    assert(t.len() == 1);
                    assert(s@ =~= head + join_lines(t));
                } else {
                    assert(s@ =~= head + join_lines(t));
                }
            }
            i = i + 1;
        }
        proof {
            assert(self.errors@.take(self.errors.len() as int) =~= self.errors@);
        }
        s
    }
}

pub open spec fn vs(s: Seq<String>) -> Seq<Seq<char>> {
    view_strings(s)
}

fn push_msg(out: &mut Vec<String>, m: String)
    ensures
        vs(final(out)@) == vs(old(out)@).push(m@),
{
    out.push(m);
    proof {
        assert(vs(out@) =~= vs(old(out)@).push(m@));
    }
}

// ---------------------------------------------------------------------------
// sql bind placeholders

pub open spec fn has_raw_prefix(k: Seq<char>) -> bool {
    k.len() >= 4 && k[0] == 'r' && k[1] == 'a' && k[2] == 'w' && k[3] == ':'
}

pub open spec fn quoted_bind_msg(tool: Seq<char>, key: Seq<char>) -> Seq<char> {
    "sql tool '"@ + tool + "': bind placeholder {{"@ + key
        + "}} is wrapped in quotes — remove the quotes, values are bound automatically"@
}

/// Errors for bind placeholders in `q[i..]` that directly follow a quote.
/// Scanning stops at the first `{{` that is never closed.
pub open spec fn quote_errors_from(tool: Seq<char>, q: Seq<char>, i: int) -> Seq<Seq<char>>
    decreases q.len() - i,
{
    if i < 0 || i + 1 >= q.len() {
        Seq::empty()
    } else if q[i] == '{' && q[i + 1] == '{' {
        match close_at(q, i + 2) {
            None => Seq::empty(),
            Some(k) => if i + 2 <= k && k + 2 <= q.len() {
                let key = trim(q.subrange(i + 2, k));
                let quoted = i > 0 && (q[i - 1] == '\'' || q[i - 1] == '"');
                (if !has_raw_prefix(key) && quoted {
                    seq![quoted_bind_msg(tool, key)]
                } else {
                    Seq::empty()
                }) + quote_errors_from(tool, q, k + 2)
            } else {
                Seq::empty()
            },
        }
    } else {
        quote_errors_from(tool, q, i + 1)
    }
}

proof fn lemma_close_bounds(t: Seq<char>, j: int)
    requires
        0 <= j,
    ensures
        close_at(t, j) matches Some(k) ==> j <= k && k + 2 <= t.len(),
    decreases t.len() - j,
{
    crate::template::render::lemma_close_at_bounds(t, j);
}

fn raw_prefixed(k: &String) -> (r: bool)
    ensures
        r == has_raw_prefix(k@),
{
    let c = chars_of(k.as_str());
    c.len() >= 4 && c[0] == 'r' && c[1] == 'a' && c[2] == 'w' && c[3] == ':'
}

/// A bind placeholder (`{{var}}`, not `{{raw:...}}`) wrapped in a quote is a
/// leftover from the old string-interpolation style — under bind parameters it
/// would emit a literal `'?'`. Flag it with a migration hint.
pub fn check_sql_bind_placeholders(tool_name: &str, query: &str, errors: &mut Vec<String>)
    ensures
        vs(final(errors)@) == vs(old(errors)@) + quote_errors_from(tool_name@, query@, 0),
{
    let ghost q = query@;
    let c = chars_of(query);
    let n = c.len();
    let mut i: usize = 0;
    while i < n && i + 1 < n
        invariant
            c@ == q,
            q == query@,
            n == q.len(),
            i <= n,
            vs(old(errors)@) + quote_errors_from(tool_name@, q, 0) == vs(errors@) + quote_errors_from(
                tool_name@,
                q,
                i as int,
            ),
        decreases n - i,
    {
        if c[i] == '{' && c[i + 1] == '{' {
            let start = i + 2;
            match find_close(&c, start) {
                None => {
                    return;
                },
                Some(k) => {
                    proof {
                        lemma_close_bounds(q, start as int);
                    }
                    let key = trim_str(query.substring_char(start, k));
                    let is_raw = raw_prefixed(&key);
                    let quoted = i > 0 && (c[i - 1] == '\'' || c[i - 1] == '"');
                    let ghost before = vs(errors@);
                    if !is_raw && quoted {
                        let m = cat5("sql tool '", tool_name, "': bind placeholder {{", key.as_str(),
                            "}} is wrapped in quotes — remove the quotes, values are bound automatically");
                        push_msg(errors, m);
                    }
                    proof {
                        let item = if !has_raw_prefix(key@) && quoted {
                            seq![quoted_bind_msg(tool_name@, key@)]
                        } else {
                            Seq::<Seq<char>>::empty()
                        };
                        assert(vs(errors@) =~= before + item);
                        assert(quote_errors_from(tool_name@, q, i as int) == item + quote_errors_from(tool_name@, q, k + 2));
                        assert(before + (item + quote_errors_from(tool_name@, q, k + 2)) =~= (before + item)
                            + quote_errors_from(tool_name@, q, k + 2));
                    }
                    i = k + 2;
                },
            }
        } else {
            i = i + 1;
        }
    }
    proof {
        assert(quote_errors_from(tool_name@, q, i as int) =~= Seq::<Seq<char>>::empty());
        assert(vs(errors@) + Seq::<Seq<char>>::empty() =~= vs(errors@));
    }
}


// ---------------------------------------------------------------------------
// input schema lint

/// JSON Schema keywords accepted in an input property's pass-through `extra`
/// (the first-class fields — type/enum/default/items/properties/required/
/// description — never land there). Anything else is flagged as a likely typo.
pub open spec fn known_schema_keywords() -> Seq<Seq<char>> {
    seq![
        "title"@,
        "examples"@,
        "deprecated"@,
        "readOnly"@,
        "writeOnly"@,
        "const"@,
        "$ref"@,
        "$comment"@,
        "allOf"@,
        "anyOf"@,
        "oneOf"@,
        "not"@,
        "minimum"@,
        "maximum"@,
        "exclusiveMinimum"@,
        "exclusiveMaximum"@,
        "multipleOf"@,
        "minLength"@,
        "maxLength"@,
        "pattern"@,
        "format"@,
        "contentEncoding"@,
        "contentMediaType"@,
        "minItems"@,
        "maxItems"@,
        "uniqueItems"@,
        "contains"@,
        "minContains"@,
        "maxContains"@,
        "prefixItems"@,
        "additionalProperties"@,
        "patternProperties"@,
        "minProperties"@,
        "maxProperties"@,
        "propertyNames"@,
        "dependentRequired"@,
        "dependentSchemas"@
    ]
}

pub fn known_schema_keyword_list() -> (r: Vec<&'static str>)
    ensures
        r@.map_values(|s: &str| s@) == known_schema_keywords(),
{
    let mut v: Vec<&'static str> = Vec::new();
    v.push("title");
    v.push("examples");
    v.push("deprecated");
    v.push("readOnly");
    v.push("writeOnly");
    v.push("const");
    v.push("$ref");
    v.push("$comment");
    v.push("allOf");
    v.push("anyOf");
    v.push("oneOf");
    v.push("not");
    v.push("minimum");
    v.push("maximum");
    v.push("exclusiveMinimum");
    v.push("exclusiveMaximum");
    v.push("multipleOf");
    v.push("minLength");
    v.push("maxLength");
    v.push("pattern");
    v.push("format");
    v.push("contentEncoding");
    v.push("contentMediaType");
    v.push("minItems");
    v.push("maxItems");
    v.push("uniqueItems");
    v.push("contains");
    v.push("minContains");
    v.push("maxContains");
    v.push("prefixItems");
    v.push("additionalProperties");
    v.push("patternProperties");
    v.push("minProperties");
    v.push("maxProperties");
    v.push("propertyNames");
    v.push("dependentRequired");
    v.push("dependentSchemas");
    proof {
        assert(v@.map_values(|s: &str| s@) =~= known_schema_keywords());
    }
    v
}

pub fn is_known_schema_keyword(k: &str) -> (r: bool)
    ensures
        r == known_schema_keywords().contains(k@),
{
    let list = known_schema_keyword_list();
    let ghost names = list@.map_values(|s: &str| s@);
    let mut i: usize = 0;
    while i < list.len()
        invariant
            i <= list.len(),
            names == list@.map_values(|s: &str| s@),
            names == known_schema_keywords(),
            forall|j: int| 0 <= j < i ==> names[j] != k@,
        decreases list.len() - i,
    {
        if str_eq(list[i], k) {
            proof {
                assert(names[i as int] == k@);
            }
            return true;
        }
        i = i + 1;
    }
    proof {
        if names.contains(k@) {
            let j = choose|j: int| 0 <= j < names.len() && names[j] == k@;
            assert(false);
        }
    }
    false
}

pub open spec fn unknown_keyword_msg(tool: Seq<char>, path: Seq<char>, key: Seq<char>) -> Seq<char> {
    "tool '"@ + tool + "': input property '"@ + path + "': unknown JSON Schema keyword '"@ + key + "'"@
}

/// Warnings for the unknown keywords among the first `n` extra keys.
pub open spec fn extra_warnings(tool: Seq<char>, path: Seq<char>, extra: Seq<(String, JsonValue)>, n: int) -> Seq<Seq<char>>
    decreases n,
{
    if n <= 0 || n > extra.len() {
        Seq::empty()
    } else {
        extra_warnings(tool, path, extra, n - 1) + (if known_schema_keywords().contains(extra[n - 1].0@) {
            Seq::empty()
        } else {
            seq![unknown_keyword_msg(tool, path, extra[n - 1].0@)]
        })
    }
}

/// Warnings for a property and everything nested in it: its unknown keywords,
/// then those of `items` (path `p[]`), then those of each nested property
/// (path `p.name`).
pub open spec fn lint_spec(tool: Seq<char>, path: Seq<char>, def: PropertyDef) -> Seq<Seq<char>>
    decreases def,
{
    extra_warnings(tool, path, def.extra@, def.extra@.len() as int) + (match def.items {
        Some(b) => lint_spec(tool, path + "[]"@, *b),
        None => Seq::empty(),
    }) + lint_props_spec(tool, path, def.properties@)
}

pub open spec fn lint_props_spec(tool: Seq<char>, path: Seq<char>, props: Seq<(String, PropertyDef)>) -> Seq<Seq<char>>
    decreases props,
{
    if props.len() == 0 {
        Seq::empty()
    } else {
        lint_props_spec(tool, path, props.drop_last()) + lint_spec(
            tool,
            path + "."@ + props.last().0@,
            props.last().1,
        )
    }
}

/// Recursively flag `extra` keys that aren't recognized JSON Schema keywords —
/// the pass-through accepts anything, so a typo like `mimimum` would otherwise
/// reach the client as a silent no-op.
pub fn lint_property(tool: &str, path: &str, def: &PropertyDef, warnings: &mut Vec<ValidationWarning>)
    ensures
        vw(final(warnings)@) == vw(old(warnings)@) + lint_spec(tool@, path@, *def),
    decreases def,
{
    let mut i: usize = 0;
    while i < def.extra.len()
        invariant
            i <= def.extra.len(),
            vw(warnings@) == vw(old(warnings)@) + extra_warnings(tool@, path@, def.extra@, i as int),
        decreases def.extra.len() - i,
    {
        let ghost before = vw(warnings@);
        if !is_known_schema_keyword(def.extra[i].0.as_str()) {
            let m = cat3("tool '", tool, "': input property '");
            let m2 = cat3(m.as_str(), path, "': unknown JSON Schema keyword '");
            let m3 = cat3(m2.as_str(), def.extra[i].0.as_str(), "'");
            push_warning(warnings, m3);
            proof {
                assert(m3@ =~= unknown_keyword_msg(tool@, path@, def.extra@[i as int].0@));
            }
        }
        proof {
            assert(vw(warnings@) =~= vw(old(warnings)@) + extra_warnings(tool@, path@, def.extra@, i + 1));
        }
        i = i + 1;
    }
    let ghost after_extra = vw(warnings@);
    match &def.items {
        Some(b) => {
            let p = cat2(path, "[]");
            proof {
                assert(decreases_to!(*def => def.items));
                assert(decreases_to!(def.items => def.items->0));
            }
            lint_property(tool, p.as_str(), b, warnings);
        },
        None => {},
    }
    let ghost after_items = vw(warnings@);
    let mut j: usize = 0;
    while j < def.properties.len()
        invariant
            j <= def.properties.len(),
            vw(warnings@) == after_items + lint_props_spec(tool@, path@, def.properties@.take(j as int)),
        decreases def.properties.len() - j,
    {
        let p1 = cat3(path, ".", def.properties[j].0.as_str());
        proof {
            assert(decreases_to!(*def => def.properties));
            assert(decreases_to!(def.properties => def.properties@));
            assert(decreases_to!(def.properties@ => def.properties@[j as int]));
            assert(decreases_to!(def.properties@[j as int] => def.properties@[j as int].1));
        }
        let ghost before = vw(warnings@);
        lint_property(tool, p1.as_str(), &def.properties[j].1, warnings);
        proof {
            assert(def.properties@.take(j + 1).drop_last() =~= def.properties@.take(j as int));
            assert(vw(warnings@) =~= after_items + lint_props_spec(tool@, path@, def.properties@.take(j + 1)));
        }
        j = j + 1;
    }
    proof {
        assert(def.properties@.take(def.properties.len() as int) =~= def.properties@);
        assert(def.extra@.len() == def.extra.len());
        assert(vw(warnings@) =~= vw(old(warnings)@) + lint_spec(tool@, path@, *def));
    }
}

pub open spec fn vw(s: Seq<ValidationWarning>) -> Seq<Seq<char>> {
    s.map_values(|w: ValidationWarning| w.message@)
}

fn push_warning(out: &mut Vec<ValidationWarning>, m: String)
    ensures
        vw(final(out)@) == vw(old(out)@).push(m@),
{
    out.push(ValidationWarning { message: m });
    proof {
        assert(vw(out@) =~= vw(old(out)@).push(m@));
    }
}

// ---------------------------------------------------------------------------
// the whole config

pub open spec fn msg(pre: Seq<char>, name: Seq<char>, post: Seq<char>) -> Seq<char> {
    pre + name + post
}

pub open spec fn opt_msg(cond: bool, m: Seq<char>) -> Seq<Seq<char>> {
    if cond {
        seq![m]
    } else {
        Seq::empty()
    }
}

/// An earlier tool has the same name as tool `i`.
pub open spec fn tool_name_seen(tools: Seq<ToolConfig>, i: int) -> bool {
    exists|j: int| 0 <= j < i && tools[j].name@ == tools[i].name@
}

pub open spec fn service_name_seen(svcs: Seq<ServiceConfig>, i: int) -> bool {
    exists|j: int| 0 <= j < i && svcs[j].name@ == svcs[i].name@
}

pub open spec fn dup_tool_errors(tools: Seq<ToolConfig>, n: int) -> Seq<Seq<char>>
    decreases n,
{
    if n <= 0 || n > tools.len() {
        Seq::empty()
    } else {
        dup_tool_errors(tools, n - 1) + opt_msg(
            tool_name_seen(tools, n - 1),
            "duplicate tool name: "@ + tools[n - 1].name@,
        )
    }
}

pub open spec fn dup_service_errors(svcs: Seq<ServiceConfig>, n: int) -> Seq<Seq<char>>
    decreases n,
{
    if n <= 0 || n > svcs.len() {
        Seq::empty()
    } else {
        dup_service_errors(svcs, n - 1) + opt_msg(
            service_name_seen(svcs, n - 1),
            "duplicate service name: "@ + svcs[n - 1].name@,
        )
    }
}

pub open spec fn service_exists(svcs: Seq<ServiceConfig>, name: Seq<char>) -> bool {
    exists|j: int| 0 <= j < svcs.len() && svcs[j].name@ == name
}

/// Index of the first tool named `name`, at or after `i`.
pub open spec fn find_tool_from(tools: Seq<ToolConfig>, name: Seq<char>, i: int) -> Option<int>
    decreases tools.len() - i,
{
    if i < 0 || i >= tools.len() {
        None
    } else if tools[i].name@ == name {
        Some(i)
    } else {
        find_tool_from(tools, name, i + 1)
    }
}

pub open spec fn find_tool(tools: Seq<ToolConfig>, name: Seq<char>) -> Option<int> {
    find_tool_from(tools, name, 0)
}

pub open spec fn step_errors(cfg: McpifyConfig, t: ToolConfig, s: PipelineStep) -> Seq<Seq<char>> {
    match find_tool(cfg.tools@, s.tool@) {
        None => seq![
            "pipeline tool '"@ + t.name@ + "': step references unknown tool '"@ + s.tool@ + "'"@,
        ],
        Some(k) => opt_msg(
            0 <= k < cfg.tools@.len() && cfg.tools@[k].tool_type == ToolType::Pipeline,
            "pipeline tool '"@ + t.name@ + "': step '"@ + s.tool@
                + "' references another pipeline (not supported)"@,
        ),
    }
}

pub open spec fn steps_errors(cfg: McpifyConfig, t: ToolConfig, n: int) -> Seq<Seq<char>>
    decreases n,
{
    if n <= 0 || n > t.steps@.len() {
        Seq::empty()
    } else {
        steps_errors(cfg, t, n - 1) + step_errors(cfg, t, t.steps@[n - 1])
    }
}

pub open spec fn kind_errors(cfg: McpifyConfig, t: ToolConfig) -> Seq<Seq<char>> {
    let n = t.name@;
    match t.tool_type {
        ToolType::Exec => opt_msg(t.command is None, msg("exec tool '"@, n, "': missing 'command'"@)),
        ToolType::Http => opt_msg(t.url is None, msg("http tool '"@, n, "': missing 'url'"@)) + opt_msg(
            t.method is None,
            msg("http tool '"@, n, "': missing 'method'"@),
        ),
        ToolType::Sql => opt_msg(t.driver is None, msg("sql tool '"@, n, "': missing 'driver'"@))
            + opt_msg(t.dsn is None, msg("sql tool '"@, n, "': missing 'dsn'"@)) + match t.query {
            Some(q) => quote_errors_from(n, q@, 0),
            None => seq![msg("sql tool '"@, n, "': missing 'query'"@)],
        },
        ToolType::Pipeline => opt_msg(t.steps@.len() == 0, msg("pipeline tool '"@, n, "': no steps"@))
            + steps_errors(cfg, t, t.steps@.len() as int),
    }
}

pub open spec fn deps_errors(cfg: McpifyConfig, t: ToolConfig, n: int) -> Seq<Seq<char>>
    decreases n,
{
    if n <= 0 || n > t.depends_on@.len() {
        Seq::empty()
    } else {
        deps_errors(cfg, t, n - 1) + opt_msg(
            !service_exists(cfg.services@, t.depends_on@[n - 1]@),
            "tool '"@ + t.name@ + "': depends_on '"@ + t.depends_on@[n - 1]@ + "' — service not found"@,
        )
    }
}

pub open spec fn is_destructive(t: ToolConfig) -> bool {
    match t.annotations {
        Some(a) => a.destructive == Some(true),
        None => false,
    }
}

pub open spec fn cache_errors(t: ToolConfig) -> Seq<Seq<char>> {
    let n = t.name@;
    match t.cache {
        Some(c) => opt_msg(
            c.refresh_interval_ms == 0,
            msg("cached tool '"@, n, "': cache.refresh_interval_ms must be > 0"@),
        ) + opt_msg(
            t.tool_type == ToolType::Pipeline,
            msg("cached tool '"@, n, "': caching a pipeline is not supported"@),
        ) + opt_msg(
            is_destructive(t),
            msg("cached tool '"@, n, "': a destructive tool cannot be cached (it would run on a timer)"@),
        ),
        None => Seq::empty(),
    }
}

pub open spec fn tool_errors(cfg: McpifyConfig, t: ToolConfig) -> Seq<Seq<char>> {
    opt_msg(t.name@.len() == 0, "tool has empty name"@) + opt_msg(
        t.timeout_ms == 0,
        msg("tool '"@, t.name@, "': timeout_ms must be > 0"@),
    ) + kind_errors(cfg, t) + deps_errors(cfg, t, t.depends_on@.len() as int) + cache_errors(t)
}

pub open spec fn has_input_properties(t: ToolConfig) -> bool {
    match t.input {
        Some(s) => s.properties@.len() > 0,
        None => false,
    }
}

pub open spec fn tool_warnings(t: ToolConfig) -> Seq<Seq<char>> {
    let n = t.name@;
    match t.cache {
        Some(c) => opt_msg(
            0 < c.refresh_interval_ms < 1000,
            "cached tool '"@ + n + "': refresh_interval_ms="@ + decimal(c.refresh_interval_ms as nat)
                + " is very small; the action runs unattended on this interval"@,
        ) + opt_msg(
            has_input_properties(t),
            msg("cached tool '"@, n,
                "': input properties are ignored — cached tools are parameterless (the background fetch uses config vars + empty input)"@),
        ),
        None => Seq::empty(),
    }
}

pub open spec fn tools_errors(cfg: McpifyConfig, n: int) -> Seq<Seq<char>>
    decreases n,
{
    if n <= 0 || n > cfg.tools@.len() {
        Seq::empty()
    } else {
        tools_errors(cfg, n - 1) + tool_errors(cfg, cfg.tools@[n - 1])
    }
}

pub open spec fn tools_warnings(tools: Seq<ToolConfig>, n: int) -> Seq<Seq<char>>
    decreases n,
{
    if n <= 0 || n > tools.len() {
        Seq::empty()
    } else {
        tools_warnings(tools, n - 1) + tool_warnings(tools[n - 1])
    }
}

pub open spec fn service_errors(s: ServiceConfig) -> Seq<Seq<char>> {
    opt_msg(s.name@.len() == 0, "service has empty name"@) + opt_msg(
        s.command@.len() == 0,
        msg("service '"@, s.name@, "': missing 'command'"@),
    ) + opt_msg(
        s.healthcheck matches Some(hc) && hc.check_type == HealthcheckType::Http && hc.url is None,
        msg("service '"@, s.name@, "': http healthcheck requires 'url'"@),
    )
}

pub open spec fn services_errors(svcs: Seq<ServiceConfig>, n: int) -> Seq<Seq<char>>
    decreases n,
{
    if n <= 0 || n > svcs.len() {
        Seq::empty()
    } else {
        services_errors(svcs, n - 1) + service_errors(svcs[n - 1])
    }
}

pub open spec fn resource_errors(r: ResourceConfig) -> Seq<Seq<char>> {
    opt_msg(r.uri@.len() == 0, msg("resource '"@, r.name@, "': empty URI"@)) + match r.resource_type {
        ResourceType::File => opt_msg(r.path is None, msg("file resource '"@, r.name@, "': missing 'path'"@)),
        ResourceType::Exec => opt_msg(
            r.command is None,
            msg("exec resource '"@, r.name@, "': missing 'command'"@),
        ),
    }
}

pub open spec fn resources_errors(rs: Seq<ResourceConfig>, n: int) -> Seq<Seq<char>>
    decreases n,
{
    if n <= 0 || n > rs.len() {
        Seq::empty()
    } else {
        resources_errors(rs, n - 1) + resource_errors(rs[n - 1])
    }
}

/// The value still reads `${env:...}`.
pub open spec fn is_env_reference(v: Seq<char>) -> bool {
    v.len() >= 6 && v[0] == '$' && v[1] == '{' && v[2] == 'e' && v[3] == 'n' && v[4] == 'v' && v[5]
        == ':' && v[v.len() - 1] == '}'
}

pub open spec fn var_warnings(name: Seq<char>, value: Seq<char>) -> Seq<Seq<char>> {
    opt_msg(is_env_reference(value), msg("var '"@, name, "': env reference was not resolved"@))
        + opt_msg(value.len() == 0, msg("var '"@, name, "': resolved to empty string"@))
}

pub open spec fn vars_warnings(vars: Seq<(String, String)>, n: int) -> Seq<Seq<char>>
    decreases n,
{
    if n <= 0 || n > vars.len() {
        Seq::empty()
    } else {
        vars_warnings(vars, n - 1) + var_warnings(vars[n - 1].0@, vars[n - 1].1@)
    }
}

pub open spec fn no_input_warnings(tools: Seq<ToolConfig>, n: int) -> Seq<Seq<char>>
    decreases n,
{
    if n <= 0 || n > tools.len() {
        Seq::empty()
    } else {
        no_input_warnings(tools, n - 1) + opt_msg(
            tools[n - 1].input is None,
            msg("tool '"@, tools[n - 1].name@, "': no input schema defined"@),
        )
    }
}

/// Lint warnings for the top-level properties of one tool's input.
pub open spec fn lint_top(tool: Seq<char>, props: Seq<(String, PropertyDef)>, n: int) -> Seq<Seq<char>>
    decreases n,
{
    if n <= 0 || n > props.len() {
        Seq::empty()
    } else {
        lint_top(tool, props, n - 1) + lint_spec(tool, props[n - 1].0@, props[n - 1].1)
    }
}

pub open spec fn lint_tool(t: ToolConfig) -> Seq<Seq<char>> {
    match t.input {
        Some(s) => lint_top(t.name@, s.properties@, s.properties@.len() as int),
        None => Seq::empty(),
    }
}

pub open spec fn lint_tools(tools: Seq<ToolConfig>, n: int) -> Seq<Seq<char>>
    decreases n,
{
    if n <= 0 || n > tools.len() {
        Seq::empty()
    } else {
        lint_tools(tools, n - 1) + lint_tool(tools[n - 1])
    }
}

/// Every error of a config, in the order they are reported: duplicate tool
/// names, duplicate service names, each tool's problems, each service's, each
/// resource's.
pub open spec fn config_errors(cfg: McpifyConfig) -> Seq<Seq<char>> {
    dup_tool_errors(cfg.tools@, cfg.tools@.len() as int) + dup_service_errors(
        cfg.services@,
        cfg.services@.len() as int,
    ) + tools_errors(cfg, cfg.tools@.len() as int) + services_errors(
        cfg.services@,
        cfg.services@.len() as int,
    ) + resources_errors(cfg.resources@, cfg.resources@.len() as int)
}

/// Every warning of a config, in order: cache settings, unresolved or empty
/// vars, tools without an input schema, unknown schema keywords.
pub open spec fn config_warnings(cfg: McpifyConfig) -> Seq<Seq<char>> {
    tools_warnings(cfg.tools@, cfg.tools@.len() as int) + vars_warnings(
        cfg.vars@,
        cfg.vars@.len() as int,
    ) + no_input_warnings(cfg.tools@, cfg.tools@.len() as int) + lint_tools(
        cfg.tools@,
        cfg.tools@.len() as int,
    )
}

fn add_msg(out: &mut Vec<String>, cond: bool, pre: &str, name: &str, post: &str)
    ensures
        vs(final(out)@) == vs(old(out)@) + opt_msg(cond, msg(pre@, name@, post@)),
{
    if cond {
        let m = cat3(pre, name, post);
        push_msg(out, m);
    }
    proof {
        assert(vs(out@) =~= vs(old(out)@) + opt_msg(cond, msg(pre@, name@, post@)));
    }
}

fn add_warn(out: &mut Vec<ValidationWarning>, cond: bool, pre: &str, name: &str, post: &str)
    ensures
        vw(final(out)@) == vw(old(out)@) + opt_msg(cond, msg(pre@, name@, post@)),
{
    if cond {
        let m = cat3(pre, name, post);
        push_warning(out, m);
    }
    proof {
        assert(vw(out@) =~= vw(old(out)@) + opt_msg(cond, msg(pre@, name@, post@)));
    }
}

fn check_duplicate_tools(tools: &Vec<ToolConfig>, errors: &mut Vec<String>)
    ensures
        vs(final(errors)@) == vs(old(errors)@) + dup_tool_errors(tools@, tools@.len() as int),
{
    let mut i: usize = 0;
    while i < tools.len()
        invariant
            i <= tools.len(),
            vs(errors@) == vs(old(errors)@) + dup_tool_errors(tools@, i as int),
        decreases tools.len() - i,
    {
        let mut seen = false;
        let mut j: usize = 0;
        while j < i
            invariant
                j <= i < tools.len(),
                seen == exists|k: int| 0 <= k < j && tools@[k].name@ == tools@[i as int].name@,
            decreases i - j,
        {
            if tools[j].name == tools[i].name {
                seen = true;
            }
            j = j + 1;
        }
        let ghost before = vs(errors@);
        add_msg(errors, seen, "duplicate tool name: ", tools[i].name.as_str(), "");
        proof {
            reveal_strlit("");
            assert(msg("duplicate tool name: "@, tools@[i as int].name@, ""@) =~= "duplicate tool name: "@
                + tools@[i as int].name@);
            assert(vs(errors@) =~= vs(old(errors)@) + dup_tool_errors(tools@, i + 1));
        }
        i = i + 1;
    }
}

fn check_duplicate_services(svcs: &Vec<ServiceConfig>, errors: &mut Vec<String>)
    ensures
        vs(final(errors)@) == vs(old(errors)@) + dup_service_errors(svcs@, svcs@.len() as int),
{
    let mut i: usize = 0;
    while i < svcs.len()
        invariant
            i <= svcs.len(),
            vs(errors@) == vs(old(errors)@) + dup_service_errors(svcs@, i as int),
        decreases svcs.len() - i,
    {
        let mut seen = false;
        let mut j: usize = 0;
        while j < i
            invariant
                j <= i < svcs.len(),
                seen == exists|k: int| 0 <= k < j && svcs@[k].name@ == svcs@[i as int].name@,
            decreases i - j,
        {
            if svcs[j].name == svcs[i].name {
                seen = true;
            }
            j = j + 1;
        }
        add_msg(errors, seen, "duplicate service name: ", svcs[i].name.as_str(), "");
        proof {
            reveal_strlit("");
            assert(msg("duplicate service name: "@, svcs@[i as int].name@, ""@) =~= "duplicate service name: "@
                + svcs@[i as int].name@);
            assert(vs(errors@) =~= vs(old(errors)@) + dup_service_errors(svcs@, i + 1));
        }
        i = i + 1;
    }
}

/// Index of the first tool named `name`.
pub fn find_tool_index(tools: &Vec<ToolConfig>, name: &String) -> (r: Option<usize>)
    ensures
        match r {
            Some(k) => find_tool(tools@, name@) == Some(k as int) && k < tools@.len(),
            None => find_tool(tools@, name@) is None,
        },
{
    let mut i: usize = 0;
    while i < tools.len()
        invariant
            i <= tools.len(),
            find_tool(tools@, name@) == find_tool_from(tools@, name@, i as int),
        decreases tools.len() - i,
    {
        if tools[i].name == *name {
            return Some(i);
        }
        i = i + 1;
    }
    None
}

fn service_known(svcs: &Vec<ServiceConfig>, name: &String) -> (r: bool)
    ensures
        r == service_exists(svcs@, name@),
{
    let mut i: usize = 0;
    while i < svcs.len()
        invariant
            i <= svcs.len(),
            forall|k: int| 0 <= k < i ==> svcs@[k].name@ != name@,
        decreases svcs.len() - i,
    {
        if svcs[i].name == *name {
            return true;
        }
        i = i + 1;
    }
    false
}

fn check_kind(cfg: &McpifyConfig, t: &ToolConfig, errors: &mut Vec<String>)
    ensures
        vs(final(errors)@) == vs(old(errors)@) + kind_errors(*cfg, *t),
{
    let n = t.name.as_str();
    match t.tool_type {
        ToolType::Exec => {
            add_msg(errors, t.command.is_none(), "exec tool '", n, "': missing 'command'");
        },
        ToolType::Http => {
            add_msg(errors, t.url.is_none(), "http tool '", n, "': missing 'url'");
            add_msg(errors, t.method.is_none(), "http tool '", n, "': missing 'method'");
        },
        ToolType::Sql => {
            add_msg(errors, t.driver.is_none(), "sql tool '", n, "': missing 'driver'");
            add_msg(errors, t.dsn.is_none(), "sql tool '", n, "': missing 'dsn'");
            match &t.query {
                Some(q) => {
                    check_sql_bind_placeholders(n, q.as_str(), errors);
                },
                None => {
                    add_msg(errors, true, "sql tool '", n, "': missing 'query'");
                },
            }
        },
        ToolType::Pipeline => {
            add_msg(errors, t.steps.len() == 0, "pipeline tool '", n, "': no steps");
            let ghost mid = vs(errors@);
            let mut i: usize = 0;
            while i < t.steps.len()
                invariant
                    i <= t.steps.len(),
                    n@ == t.name@,
                    vs(errors@) == mid + steps_errors(*cfg, *t, i as int),
                decreases t.steps.len() - i,
            {
                let s = &t.steps[i];
                let ghost before = vs(errors@);
                match find_tool_index(&cfg.tools, &s.tool) {
                    None => {
                        let m = cat5("pipeline tool '", n, "': step references unknown tool '", s.tool.as_str(), "'");
                        push_msg(errors, m);
                    },
                    Some(k) => {
                        if cfg.tools[k].tool_type == ToolType::Pipeline {
                            let m = cat5("pipeline tool '", n, "': step '", s.tool.as_str(),
                                "' references another pipeline (not supported)");
                            push_msg(errors, m);
                        }
                    },
                }
                proof {
                    let st = t.steps@[i as int];
                    assert(s.tool@ == st.tool@);
                    match find_tool(cfg.tools@, st.tool@) {
                        None => {
                            assert(vs(errors@) =~= before + step_errors(*cfg, *t, st));
                        },
                        Some(k) => {
                            assert(vs(errors@) =~= before + step_errors(*cfg, *t, st));
                        },
                    }
                    assert(vs(errors@) =~= mid + steps_errors(*cfg, *t, i + 1));
                }
                i = i + 1;
            }
        },
    }
    proof {
        assert(vs(errors@) =~= vs(old(errors)@) + kind_errors(*cfg, *t));
    }
}

fn check_deps(cfg: &McpifyConfig, t: &ToolConfig, errors: &mut Vec<String>)
    ensures
        vs(final(errors)@) == vs(old(errors)@) + deps_errors(*cfg, *t, t.depends_on@.len() as int),
{
    let n = t.name.as_str();
    let mut i: usize = 0;
    while i < t.depends_on.len()
        invariant
            i <= t.depends_on.len(),
            n@ == t.name@,
            vs(errors@) == vs(old(errors)@) + deps_errors(*cfg, *t, i as int),
        decreases t.depends_on.len() - i,
    {
        let dep = &t.depends_on[i];
        if !service_known(&cfg.services, dep) {
            let m = cat5("tool '", n, "': depends_on '", dep.as_str(), "' — service not found");
            push_msg(errors, m);
        }
        proof {
            assert(vs(errors@) =~= vs(old(errors)@) + deps_errors(*cfg, *t, i + 1));
        }
        i = i + 1;
    }
}

fn check_cache(t: &ToolConfig, errors: &mut Vec<String>, warnings: &mut Vec<ValidationWarning>)
    ensures
        vs(final(errors)@) == vs(old(errors)@) + cache_errors(*t),
        vw(final(warnings)@) == vw(old(warnings)@) + tool_warnings(*t),
{
    let n = t.name.as_str();
    match &t.cache {
        Some(c) => {
            add_msg(errors, c.refresh_interval_ms == 0, "cached tool '", n, "': cache.refresh_interval_ms must be > 0");
            add_msg(errors, t.tool_type == ToolType::Pipeline, "cached tool '", n,
                "': caching a pipeline is not supported");
            let destructive = match &t.annotations {
                Some(a) => a.destructive == Some(true),
                None => false,
            };
            add_msg(errors, destructive, "cached tool '", n,
                "': a destructive tool cannot be cached (it would run on a timer)");
            if c.refresh_interval_ms > 0 && c.refresh_interval_ms < 1000 {
                let num = u64_to_decimal(c.refresh_interval_ms);
                let m = cat5("cached tool '", n, "': refresh_interval_ms=", num.as_str(),
                    " is very small; the action runs unattended on this interval");
                push_warning(warnings, m);
            }
            let props = match &t.input {
                Some(s) => s.properties.len() > 0,
                None => false,
            };
            add_warn(warnings, props, "cached tool '", n,
                "': input properties are ignored — cached tools are parameterless (the background fetch uses config vars + empty input)");
        },
        None => {},
    }
    proof {
        assert(vs(errors@) =~= vs(old(errors)@) + cache_errors(*t));
        assert(vw(warnings@) =~= vw(old(warnings)@) + tool_warnings(*t));
    }
}

fn check_tool(cfg: &McpifyConfig, t: &ToolConfig, errors: &mut Vec<String>, warnings: &mut Vec<ValidationWarning>)
    ensures
        vs(final(errors)@) == vs(old(errors)@) + tool_errors(*cfg, *t),
        vw(final(warnings)@) == vw(old(warnings)@) + tool_warnings(*t),
{
    let n = t.name.as_str();
    add_msg(errors, t.name.as_str().unicode_len() == 0, "tool has empty name", "", "");
    proof {
        reveal_strlit("");
        assert(msg("tool has empty name"@, ""@, ""@) =~= "tool has empty name"@);
    }
    add_msg(errors, t.timeout_ms == 0, "tool '", n, "': timeout_ms must be > 0");
    check_kind(cfg, t, errors);
    check_deps(cfg, t, errors);
    check_cache(t, errors, warnings);
    proof {
        assert(vs(errors@) =~= vs(old(errors)@) + tool_errors(*cfg, *t));
    }
}

fn check_service(s: &ServiceConfig, errors: &mut Vec<String>)
    ensures
        vs(final(errors)@) == vs(old(errors)@) + service_errors(*s),
{
    let n = s.name.as_str();
    add_msg(errors, n.unicode_len() == 0, "service has empty name", "", "");
    proof {
        reveal_strlit("");
        assert(msg("service has empty name"@, ""@, ""@) =~= "service has empty name"@);
    }
    add_msg(errors, s.command.as_str().unicode_len() == 0, "service '", n, "': missing 'command'");
    let bad_hc = match &s.healthcheck {
        Some(hc) => hc.check_type == HealthcheckType::Http && hc.url.is_none(),
        None => false,
    };
    add_msg(errors, bad_hc, "service '", n, "': http healthcheck requires 'url'");
    proof {
        assert(vs(errors@) =~= vs(old(errors)@) + service_errors(*s));
    }
}

fn check_resource(r: &ResourceConfig, errors: &mut Vec<String>)
    ensures
        vs(final(errors)@) == vs(old(errors)@) + resource_errors(*r),
{
    let n = r.name.as_str();
    add_msg(errors, r.uri.as_str().unicode_len() == 0, "resource '", n, "': empty URI");
    match r.resource_type {
        ResourceType::File => {
            add_msg(errors, r.path.is_none(), "file resource '", n, "': missing 'path'");
        },
        ResourceType::Exec => {
            add_msg(errors, r.command.is_none(), "exec resource '", n, "': missing 'command'");
        },
    }
    proof {
        assert(vs(errors@) =~= vs(old(errors)@) + resource_errors(*r));
    }
}

fn env_reference(v: &String) -> (r: bool)
    ensures
        r == is_env_reference(v@),
{
    let c = chars_of(v.as_str());
    let n = c.len();
    n >= 6 && c[0] == '$' && c[1] == '{' && c[2] == 'e' && c[3] == 'n' && c[4] == 'v' && c[5] == ':' && c[n
        - 1] == '}'
}

fn lint_tool_input(t: &ToolConfig, warnings: &mut Vec<ValidationWarning>)
    ensures
        vw(final(warnings)@) == vw(old(warnings)@) + lint_tool(*t),
{
    match &t.input {
        Some(s) => {
            let mut i: usize = 0;
            while i < s.properties.len()
                invariant
                    i <= s.properties.len(),
                    vw(warnings@) == vw(old(warnings)@) + lint_top(t.name@, s.properties@, i as int),
                decreases s.properties.len() - i,
            {
                lint_property(t.name.as_str(), s.properties[i].0.as_str(), &s.properties[i].1, warnings);
                proof {
                    assert(vw(warnings@) =~= vw(old(warnings)@) + lint_top(t.name@, s.properties@, i + 1));
                }
                i = i + 1;
            }
        },
        None => {},
    }
    proof {
        assert(vw(warnings@) =~= vw(old(warnings)@) + lint_tool(*t));
    }
}

/// Checks a config. Errors make it invalid (`Err` with all of them, see
/// [`config_errors`]); otherwise the warnings are returned (see
/// [`config_warnings`]).
pub fn validate(config: &McpifyConfig) -> (r: Result<Vec<ValidationWarning>, ValidationFailure>)
    ensures
        match r {
            Ok(w) => config_errors(*config).len() == 0 && vw(w@) == config_warnings(*config),
            Err(f) => config_errors(*config).len() > 0 && vs(f.errors@) == config_errors(*config),
        },
{
    let mut warnings: Vec<ValidationWarning> = Vec::new();
    let mut errors: Vec<String> = Vec::new();
    proof {
        assert(vs(errors@) =~= Seq::<Seq<char>>::empty());
        assert(vw(warnings@) =~= Seq::<Seq<char>>::empty());
    }
    check_duplicate_tools(&config.tools, &mut errors);
    check_duplicate_services(&config.services, &mut errors);
    let ghost e2 = vs(errors@);
    let mut i: usize = 0;
    while i < config.tools.len()
        invariant
            i <= config.tools.len(),
            vs(errors@) == e2 + tools_errors(*config, i as int),
            vw(warnings@) == tools_warnings(config.tools@, i as int),
        decreases config.tools.len() - i,
    {
        check_tool(config, &config.tools[i], &mut errors, &mut warnings);
        proof {
            assert(vs(errors@) =~= e2 + tools_errors(*config, i + 1));
            assert(vw(warnings@) =~= tools_warnings(config.tools@, i + 1));
        }
        i = i + 1;
    }
    let ghost e3 = vs(errors@);
    let mut i: usize = 0;
    while i < config.services.len()
        invariant
            i <= config.services.len(),
            vs(errors@) == e3 + services_errors(config.services@, i as int),
        decreases config.services.len() - i,
    {
        check_service(&config.services[i], &mut errors);
        proof {
            assert(vs(errors@) =~= e3 + services_errors(config.services@, i + 1));
        }
        i = i + 1;
    }
    let ghost e4 = vs(errors@);
    let mut i: usize = 0;
    while i < config.resources.len()
        invariant
            i <= config.resources.len(),
            vs(errors@) == e4 + resources_errors(config.resources@, i as int),
        decreases config.resources.len() - i,
    {
        check_resource(&config.resources[i], &mut errors);
        proof {
            assert(vs(errors@) =~= e4 + resources_errors(config.resources@, i + 1));
        }
        i = i + 1;
    }
    let ghost w1 = vw(warnings@);
    let mut i: usize = 0;
    while i < config.vars.len()
        invariant
            i <= config.vars.len(),
            vw(warnings@) == w1 + vars_warnings(config.vars@, i as int),
        decreases config.vars.len() - i,
    {
        let name = config.vars[i].0.as_str();
        let value = &config.vars[i].1;
        add_warn(&mut warnings, env_reference(value), "var '", name, "': env reference was not resolved");
        add_warn(&mut warnings, value.as_str().unicode_len() == 0, "var '", name, "': resolved to empty string");
        proof {
            assert(vw(warnings@) =~= w1 + vars_warnings(config.vars@, i + 1));
        }
        i = i + 1;
    }
    let ghost w2 = vw(warnings@);
    let mut i: usize = 0;
    while i < config.tools.len()
        invariant
            i <= config.tools.len(),
            vw(warnings@) == w2 + no_input_warnings(config.tools@, i as int),
        decreases config.tools.len() - i,
    {
        add_warn(&mut warnings, config.tools[i].input.is_none(), "tool '", config.tools[i].name.as_str(),
            "': no input schema defined");
        proof {
            assert(vw(warnings@) =~= w2 + no_input_warnings(config.tools@, i + 1));
        }
        i = i + 1;
    }
    let ghost w3 = vw(warnings@);
    let mut i: usize = 0;
    while i < config.tools.len()
        invariant
            i <= config.tools.len(),
            vw(warnings@) == w3 + lint_tools(config.tools@, i as int),
        decreases config.tools.len() - i,
    {
        lint_tool_input(&config.tools[i], &mut warnings);
        proof {
            assert(vw(warnings@) =~= w3 + lint_tools(config.tools@, i + 1));
        }
        i = i + 1;
    }
    proof {
        assert(vs(errors@) =~= config_errors(*config));
        assert(vw(warnings@) =~= config_warnings(*config));
    }
    if errors.len() == 0 {
        Ok(warnings)
    } else {
        Err(ValidationFailure { errors })
    }
}

/// What is in one part of a joined list is in the whole.
pub proof fn lemma_concat_contains<A>(a: Seq<A>, b: Seq<A>, x: A)
    ensures
        a.contains(x) ==> (a + b).contains(x),
        b.contains(x) ==> (a + b).contains(x),
{
    if a.contains(x) {
        let i = choose|i: int| 0 <= i < a.len() && a[i] == x;
        assert((a + b)[i] == x);
    }
    if b.contains(x) {
        let i = choose|i: int| 0 <= i < b.len() && b[i] == x;
        assert((a + b)[a.len() + i] == x);
    }
}

/// An error of tool `i` is an error of the config.
proof fn lemma_tool_error_reported(c: McpifyConfig, i: int, n: int, m: Seq<char>)
    requires
        0 <= i < n <= c.tools@.len(),
        tool_errors(c, c.tools@[i]).contains(m),
    ensures
        tools_errors(c, n).contains(m),
    decreases n,
{
    if i < n - 1 {
        lemma_tool_error_reported(c, i, n - 1, m);
    }
    lemma_concat_contains(tools_errors(c, n - 1), tool_errors(c, c.tools@[n - 1]), m);
}

proof fn lemma_kind_error_reported(c: McpifyConfig, i: int, m: Seq<char>)
    requires
        0 <= i < c.tools@.len(),
        kind_errors(c, c.tools@[i]).contains(m),
    ensures
        config_errors(c).contains(m),
{
    let t = c.tools@[i];
    let a = opt_msg(t.name@.len() == 0, "tool has empty name"@) + opt_msg(
        t.timeout_ms == 0,
        msg("tool '"@, t.name@, "': timeout_ms must be > 0"@),
    );
    lemma_concat_contains(a, kind_errors(c, t), m);
    lemma_concat_contains(a + kind_errors(c, t), deps_errors(c, t, t.depends_on@.len() as int), m);
    lemma_concat_contains(
        a + kind_errors(c, t) + deps_errors(c, t, t.depends_on@.len() as int),
        cache_errors(t),
        m,
    );
    lemma_tool_error_reported(c, i, c.tools@.len() as int, m);
    let d = dup_tool_errors(c.tools@, c.tools@.len() as int) + dup_service_errors(
        c.services@,
        c.services@.len() as int,
    );
    lemma_concat_contains(d, tools_errors(c, c.tools@.len() as int), m);
    lemma_concat_contains(
        d + tools_errors(c, c.tools@.len() as int),
        services_errors(c.services@, c.services@.len() as int),
        m,
    );
    lemma_concat_contains(
        d + tools_errors(c, c.tools@.len() as int) + services_errors(c.services@, c.services@.len() as int),
        resources_errors(c.resources@, c.resources@.len() as int),
        m,
    );
}

/// A tool must have what its kind needs to run: an exec tool a command, an
/// http tool a url and a method, a sql tool a driver, a dsn and a query, and
/// a pipeline at least one step. A tool that lacks one is named in an error
/// of the config, so a config that validates has none lacking.
pub proof fn law_tools_have_what_their_kind_needs(c: McpifyConfig, i: int)
    requires
        0 <= i < c.tools@.len(),
    ensures
        c.tools@[i].tool_type == ToolType::Exec && c.tools@[i].command is None ==> config_errors(c).contains(
            "exec tool '"@ + c.tools@[i].name@ + "': missing 'command'"@,
        ),
        c.tools@[i].tool_type == ToolType::Http && c.tools@[i].url is None ==> config_errors(c).contains(
            "http tool '"@ + c.tools@[i].name@ + "': missing 'url'"@,
        ),
        c.tools@[i].tool_type == ToolType::Http && c.tools@[i].method is None ==> config_errors(c).contains(
            "http tool '"@ + c.tools@[i].name@ + "': missing 'method'"@,
        ),
        c.tools@[i].tool_type == ToolType::Sql && c.tools@[i].driver is None ==> config_errors(c).contains(
            "sql tool '"@ + c.tools@[i].name@ + "': missing 'driver'"@,
        ),
        c.tools@[i].tool_type == ToolType::Sql && c.tools@[i].dsn is None ==> config_errors(c).contains(
            "sql tool '"@ + c.tools@[i].name@ + "': missing 'dsn'"@,
        ),
        c.tools@[i].tool_type == ToolType::Sql && c.tools@[i].query is None ==> config_errors(c).contains(
            "sql tool '"@ + c.tools@[i].name@ + "': missing 'query'"@,
        ),
        c.tools@[i].tool_type == ToolType::Pipeline && c.tools@[i].steps@.len() == 0 ==> config_errors(c).contains(
            "pipeline tool '"@ + c.tools@[i].name@ + "': no steps"@,
        ),
        config_errors(c).len() == 0 ==> match c.tools@[i].tool_type {
            ToolType::Exec => c.tools@[i].command is Some,
            ToolType::Http => c.tools@[i].url is Some && c.tools@[i].method is Some,
            ToolType::Sql => c.tools@[i].driver is Some && c.tools@[i].dsn is Some && c.tools@[i].query is Some,
            ToolType::Pipeline => c.tools@[i].steps@.len() > 0,
        },
{
    let t = c.tools@[i];
    let n = t.name@;
    let k = kind_errors(c, t);
    match t.tool_type {
        ToolType::Exec => {
            if t.command is None {
                assert(k[0] == "exec tool '"@ + n + "': missing 'command'"@);
                lemma_kind_error_reported(c, i, k[0]);
            }
        },
        ToolType::Http => {
            let a = opt_msg(t.url is None, msg("http tool '"@, n, "': missing 'url'"@));
            let b = opt_msg(t.method is None, msg("http tool '"@, n, "': missing 'method'"@));
            assert(k == a + b);
            if t.url is None {
                assert(a[0] == "http tool '"@ + n + "': missing 'url'"@);
                lemma_concat_contains(a, b, a[0]);
                lemma_kind_error_reported(c, i, a[0]);
            }
            if t.method is None {
                assert(b[0] == "http tool '"@ + n + "': missing 'method'"@);
                lemma_concat_contains(a, b, b[0]);
                lemma_kind_error_reported(c, i, b[0]);
            }
        },
        ToolType::Sql => {
            let a = opt_msg(t.driver is None, msg("sql tool '"@, n, "': missing 'driver'"@));
            let b = opt_msg(t.dsn is None, msg("sql tool '"@, n, "': missing 'dsn'"@));
            let q = match t.query {
                Some(qq) => quote_errors_from(n, qq@, 0),
                None => seq![msg("sql tool '"@, n, "': missing 'query'"@)],
            };
            assert(k == a + b + q);
            if t.driver is None {
                assert(a[0] == "sql tool '"@ + n + "': missing 'driver'"@);
                lemma_concat_contains(a, b, a[0]);
                lemma_concat_contains(a + b, q, a[0]);
                lemma_kind_error_reported(c, i, a[0]);
            }
            if t.dsn is None {
                assert(b[0] == "sql tool '"@ + n + "': missing 'dsn'"@);
                lemma_concat_contains(a, b, b[0]);
                lemma_concat_contains(a + b, q, b[0]);
                lemma_kind_error_reported(c, i, b[0]);
            }
            if t.query is None {
                assert(q[0] == "sql tool '"@ + n + "': missing 'query'"@);
                lemma_concat_contains(a + b, q, q[0]);
                lemma_kind_error_reported(c, i, q[0]);
            }
        },
        ToolType::Pipeline => {
            let a = opt_msg(t.steps@.len() == 0, msg("pipeline tool '"@, n, "': no steps"@));
            let b = steps_errors(c, t, t.steps@.len() as int);
            assert(k == a + b);
            if t.steps@.len() == 0 {
                assert(a[0] == "pipeline tool '"@ + n + "': no steps"@);
                lemma_concat_contains(a, b, a[0]);
                lemma_kind_error_reported(c, i, a[0]);
            }
        },
    }
}

} // verus!
