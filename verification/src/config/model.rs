use crate::json::{json_equal, lemma_view_fields_index2, lemma_view_fields_len2, view_json, view_json_fields, view_json_seq, lemma_view_seq_index, lemma_view_seq_len, JsonValue, JsonView};
use vstd::prelude::*;
use vstd::string::*;

verus! {

/// A string-to-string map, as `(key, value)` entries in key order.
pub type StrMap = Vec<(String, String)>;

pub open spec fn view_pairs(s: Seq<(String, String)>) -> Seq<(Seq<char>, Seq<char>)> {
    s.map_values(|p: (String, String)| (p.0@, p.1@))
}

pub open spec fn view_strings(s: Seq<String>) -> Seq<Seq<char>> {
    s.map_values(|x: String| x@)
}

pub open spec fn view_opt_string(o: Option<String>) -> Option<Seq<char>> {
    match o {
        Some(s) => Some(s@),
        None => None,
    }
}

pub struct McpifyConfig {
    pub server: ServerConfig,
    pub supervisor: SupervisorConfig,
    /// Background processes the runtime starts and keeps alive.
    pub services: Vec<ServiceConfig>,
    pub tools: Vec<ToolConfig>,
    pub vars: StrMap,
    pub resources: Vec<ResourceConfig>,
}

pub struct ServerConfig {
    pub name: String,
    pub transport: String,
    pub log_level: String,
}

impl ServerConfig {
    pub fn default() -> (r: Self)
        ensures
            r.name@ == "mcpify"@,
            r.transport@ == "stdio"@,
            r.log_level@ == "info"@,
    {
        ServerConfig {
            name: default_server_name(),
            transport: default_transport(),
            log_level: default_log_level(),
        }
    }
}

pub fn default_server_name() -> (r: String)
    ensures
        r@ == "mcpify"@,
{
    String::from_str("mcpify")
}

pub fn default_transport() -> (r: String)
    ensures
        r@ == "stdio"@,
{
    String::from_str("stdio")
}

pub fn default_log_level() -> (r: String)
    ensures
        r@ == "info"@,
{
    String::from_str("info")
}

pub struct SupervisorConfig {
    pub restart_policy: RestartPolicy,
    pub healthcheck_interval_ms: u64,
    pub graceful_shutdown_timeout_ms: u64,
}

impl SupervisorConfig {
    pub fn default() -> (r: Self)
        ensures
            r.restart_policy == RestartPolicy::OnFailure,
            r.healthcheck_interval_ms == 3000,
            r.graceful_shutdown_timeout_ms == 5000,
    {
        SupervisorConfig {
            restart_policy: default_restart_policy(),
            healthcheck_interval_ms: default_healthcheck_interval(),
            graceful_shutdown_timeout_ms: default_graceful_shutdown_timeout(),
        }
    }
}

pub fn default_restart_policy() -> (r: RestartPolicy)
    ensures
        r == RestartPolicy::OnFailure,
{
    RestartPolicy::OnFailure
}

pub fn default_healthcheck_interval() -> (r: u64)
    ensures
        r == 3000,
{
    3000
}

pub fn default_graceful_shutdown_timeout() -> (r: u64)
    ensures
        r == 5000,
{
    5000
}

#[derive(Debug, Clone, Copy, PartialEq, Eq, Structural)]
pub enum RestartPolicy {
    OnFailure,
    Always,
    Never,
}

pub struct ServiceConfig {
    pub name: String,
    pub command: String,
    pub args: Vec<String>,
    pub cwd: String,
    pub env: StrMap,
    pub autostart: bool,
    pub restart: RestartPolicy,
    pub healthcheck: Option<HealthcheckConfig>,
}

/// A supervised child process is configured like a service.
pub type ChildConfig = ServiceConfig;

pub fn default_cwd() -> (r: String)
    ensures
        r@ == "."@,
{
    String::from_str(".")
}

pub fn default_true() -> (r: bool)
    ensures
        r,
{
    true
}

pub struct HealthcheckConfig {
    pub check_type: HealthcheckType,
    pub url: Option<String>,
    pub interval_ms: u64,
    pub timeout_ms: u64,
}

pub fn default_healthcheck_timeout() -> (r: u64)
    ensures
        r == 1000,
{
    1000
}

#[derive(Debug, Clone, Copy, PartialEq, Eq, Structural)]
pub enum HealthcheckType {
    Http,
    Process,
}

pub struct ToolConfig {
    pub name: String,
    pub tool_type: ToolType,
    pub description: String,
    // exec fields
    pub command: Option<String>,
    pub args: Vec<String>,
    pub cwd: Option<String>,
    pub env: StrMap,
    // http fields
    pub method: Option<HttpMethod>,
    pub url: Option<String>,
    pub headers: StrMap,
    pub query_params: StrMap,
    pub auth: Option<AuthConfig>,
    pub body: Option<String>,
    // sql fields
    pub driver: Option<SqlDriver>,
    pub dsn: Option<String>,
    pub query: Option<String>,
    // pipeline fields
    pub steps: Vec<PipelineStep>,
    // common
    pub timeout_ms: u64,
    pub depends_on: Vec<String>,
    pub enabled: bool,
    pub input: Option<InputSchema>,
    pub retry: Option<RetryConfig>,
    pub annotations: Option<ToolAnnotations>,
    pub output: Option<OutputConfig>,
    pub cache: Option<CacheConfig>,
}

pub fn default_tool_timeout() -> (r: u64)
    ensures
        r == 30000,
{
    30000
}

/// How an http tool authenticates; each field may hold `{{var}}`s.
pub enum AuthConfig {
    Bearer { token: String },
    Basic { username: String, password: String },
    ApiKey { header: String, value: String },
}

/// One step of a pipeline tool: the tool to run and the input it gets. An
/// empty `input` hands the pipeline's own input through.
pub struct PipelineStep {
    pub id: Option<String>,
    pub tool: String,
    pub input: StrMap,
}

/// A tool with this block is run in the background and its last result served.
#[derive(Debug, Clone, Copy, PartialEq, Eq, Structural)]
pub struct CacheConfig {
    pub refresh_interval_ms: u64,
}

pub struct OutputConfig {
    pub parse: OutputParse,
    pub schema: Option<JsonValue>,
}

#[derive(Debug, Clone, Copy, PartialEq, Eq, Structural)]
pub enum OutputParse {
    Text,
    Json,
}

#[derive(Debug, Clone, Copy, PartialEq, Eq, Structural)]
pub struct RetryConfig {
    pub max_retries: u32,
    pub retry_delay_ms: u64,
}

pub fn default_max_retries() -> (r: u32)
    ensures
        r == 3,
{
    3
}

pub fn default_retry_delay() -> (r: u64)
    ensures
        r == 1000,
{
    1000
}

#[derive(Debug, Clone, Copy, PartialEq, Eq, Structural)]
pub enum ToolType {
    Exec,
    Http,
    Sql,
    Pipeline,
}

#[derive(Debug, Clone, Copy, PartialEq, Eq, Structural)]
pub enum SqlDriver {
    Postgres,
    Sqlite,
}

#[derive(Debug, Clone, Copy, PartialEq, Eq, Structural)]
pub struct ToolAnnotations {
    pub destructive: Option<bool>,
    pub read_only: Option<bool>,
    pub idempotent: Option<bool>,
    pub open_world: Option<bool>,
}

pub struct ResourceConfig {
    pub name: String,
    pub uri: String,
    pub description: Option<String>,
    pub resource_type: ResourceType,
    // for file resources
    pub path: Option<String>,
    // for exec resources
    pub command: Option<String>,
    pub args: Vec<String>,
    pub mime_type: Option<String>,
}

#[derive(Debug, Clone, Copy, PartialEq, Eq, Structural)]
pub enum ResourceType {
    File,
    Exec,
}

#[derive(Debug, Clone, Copy, PartialEq, Eq, Structural)]
pub enum HttpMethod {
    Get,
    Post,
    Put,
    Patch,
    Delete,
}

pub struct InputSchema {
    pub schema_type: String,
    pub properties: Vec<(String, PropertyDef)>,
    pub required: Vec<String>,
}

pub fn default_object_type() -> (r: String)
    ensures
        r@ == "object"@,
{
    String::from_str("object")
}

/// One input property: a JSON Schema fragment. Keywords that have no field of
/// their own are kept in `extra`.
pub struct PropertyDef {
    pub prop_type: String,
    pub description: Option<String>,
    pub enum_values: Option<Vec<JsonValue>>,
    pub default: Option<JsonValue>,
    pub items: Option<Box<PropertyDef>>,
    pub properties: Vec<(String, PropertyDef)>,
    pub required: Vec<String>,
    pub extra: Vec<(String, JsonValue)>,
}

// ---------------------------------------------------------------------------
// models and equality

pub proof fn lemma_view_strings(s: Seq<String>)
    ensures
        view_strings(s).len() == s.len(),
        forall|i: int| 0 <= i < s.len() ==> #[trigger] view_strings(s)[i] == s[i]@,
{
}

/// Whether two string lists hold the same strings in the same order.
pub fn strings_equal(a: &Vec<String>, b: &Vec<String>) -> (r: bool)
    ensures
        r == (view_strings(a@) == view_strings(b@)),
{
    if a.len() != b.len() {
        proof {
            lemma_view_strings(a@);
            lemma_view_strings(b@);
        }
        return false;
    }
    let mut i: usize = 0;
    while i < a.len()
        invariant
            a.len() == b.len(),
            i <= a.len(),
            forall|j: int| 0 <= j < i ==> a@[j]@ == b@[j]@,
        decreases a.len() - i,
    {
        if a[i] != b[i] {
            proof {
                assert(view_strings(a@)[i as int] != view_strings(b@)[i as int]);
            }
            return false;
        }
        i = i + 1;
    }
    proof {
        assert(view_strings(a@) =~= view_strings(b@));
    }
    true
}

/// Whether two maps hold the same entries in the same order.
pub fn pairs_equal(a: &StrMap, b: &StrMap) -> (r: bool)
    ensures
        r == (view_pairs(a@) == view_pairs(b@)),
{
    if a.len() != b.len() {
        proof {
            assert(view_pairs(a@).len() != view_pairs(b@).len());
        }
        return false;
    }
    let mut i: usize = 0;
    while i < a.len()
        invariant
            a.len() == b.len(),
            i <= a.len(),
            forall|j: int| 0 <= j < i ==> a@[j].0@ == b@[j].0@ && a@[j].1@ == b@[j].1@,
        decreases a.len() - i,
    {
        if a[i].0 != b[i].0 || a[i].1 != b[i].1 {
            proof {
                assert(view_pairs(a@)[i as int] != view_pairs(b@)[i as int]);
            }
            return false;
        }
        i = i + 1;
    }
    proof {
        assert(view_pairs(a@) =~= view_pairs(b@));
    }
    true
}

pub fn opt_string_equal(a: &Option<String>, b: &Option<String>) -> (r: bool)
    ensures
        r == (view_opt_string(*a) == view_opt_string(*b)),
{
    match (a, b) {
        (Some(x), Some(y)) => *x == *y,
        (None, None) => true,
        _ => false,
    }
}

pub open spec fn view_opt_json(o: Option<JsonValue>) -> Option<JsonView> {
    match o {
        Some(v) => Some(view_json(v)),
        None => None,
    }
}

pub fn opt_json_equal(a: &Option<JsonValue>, b: &Option<JsonValue>) -> (r: bool)
    ensures
        r == (view_opt_json(*a) == view_opt_json(*b)),
{
    match (a, b) {
        (Some(x), Some(y)) => json_equal(x, y),
        (None, None) => true,
        _ => false,
    }
}

pub fn json_seq_equal(a: &Vec<JsonValue>, b: &Vec<JsonValue>) -> (r: bool)
    ensures
        r == (view_json_seq(a@) == view_json_seq(b@)),
{
    proof {
        lemma_view_seq_len(a@);
        lemma_view_seq_len(b@);
    }
    if a.len() != b.len() {
        return false;
    }
    let mut i: usize = 0;
    while i < a.len()
        invariant
            a.len() == b.len(),
            i <= a.len(),
            forall|j: int| 0 <= j < i ==> view_json(a@[j]) == view_json(b@[j]),
        decreases a.len() - i,
    {
        if !json_equal(&a[i], &b[i]) {
            proof {
                lemma_view_seq_index(a@, i as int);
                lemma_view_seq_index(b@, i as int);
                assert(view_json_seq(a@)[i as int] != view_json_seq(b@)[i as int]);
            }
            return false;
        }
        i = i + 1;
    }
    proof {
        assert forall|j: int| 0 <= j < a@.len() implies view_json_seq(a@)[j] == view_json_seq(b@)[j] by {
            lemma_view_seq_index(a@, j);
            lemma_view_seq_index(b@, j);
        }
        assert(view_json_seq(a@) =~= view_json_seq(b@));
    }
    true
}

pub fn json_fields_equal(a: &Vec<(String, JsonValue)>, b: &Vec<(String, JsonValue)>) -> (r: bool)
    ensures
        r == (view_json_fields(a@) == view_json_fields(b@)),
{
    proof {
        lemma_view_fields_len2(a@);
        lemma_view_fields_len2(b@);
    }
    if a.len() != b.len() {
        return false;
    }
    let mut i: usize = 0;
    while i < a.len()
        invariant
            a.len() == b.len(),
            i <= a.len(),
            forall|j: int| 0 <= j < i ==> (a@[j].0@, view_json(a@[j].1)) == (b@[j].0@, view_json(b@[j].1)),
        decreases a.len() - i,
    {
        if a[i].0 != b[i].0 || !json_equal(&a[i].1, &b[i].1) {
            proof {
                lemma_view_fields_index2(a@, i as int);
                lemma_view_fields_index2(b@, i as int);
                assert(view_json_fields(a@)[i as int] != view_json_fields(b@)[i as int]);
            }
            return false;
        }
        i = i + 1;
    }
    proof {
        assert forall|j: int| 0 <= j < a@.len() implies view_json_fields(a@)[j] == view_json_fields(b@)[j] by {
            lemma_view_fields_index2(a@, j);
            lemma_view_fields_index2(b@, j);
        }
        assert(view_json_fields(a@) =~= view_json_fields(b@));
    }
    true
}

/// Model of a [`PropertyDef`].
pub struct PropertyView {
    pub prop_type: Seq<char>,
    pub description: Option<Seq<char>>,
    pub enum_values: Option<Seq<JsonView>>,
    pub default: Option<JsonView>,
    pub items: Option<Box<PropertyView>>,
    pub properties: Seq<(Seq<char>, PropertyView)>,
    pub required: Seq<Seq<char>>,
    pub extra: Seq<(Seq<char>, JsonView)>,
}

pub open spec fn property_view(p: PropertyDef) -> PropertyView
    decreases p,
{
    PropertyView {
        prop_type: p.prop_type@,
        description: view_opt_string(p.description),
        enum_values: match p.enum_values {
            Some(v) => Some(view_json_seq(v@)),
            None => None,
        },
        default: view_opt_json(p.default),
        items: match p.items {
            Some(b) => Some(Box::new(property_view(*b))),
            None => None,
        },
        properties: property_views(p.properties@),
        required: view_strings(p.required@),
        extra: view_json_fields(p.extra@),
    }
}

pub open spec fn property_views(s: Seq<(String, PropertyDef)>) -> Seq<(Seq<char>, PropertyView)>
    decreases s,
{
    if s.len() == 0 {
        Seq::empty()
    } else {
        property_views(s.drop_last()).push((s.last().0@, property_view(s.last().1)))
    }
}

pub proof fn lemma_property_views_index(s: Seq<(String, PropertyDef)>, i: int)
    requires
        0 <= i < s.len(),
    ensures
        property_views(s).len() == s.len(),
        property_views(s)[i] == (s[i].0@, property_view(s[i].1)),
    decreases s.len(),
{
    lemma_property_views_len(s);
    if i < s.len() - 1 {
        lemma_property_views_index(s.drop_last(), i);
    }
}

pub proof fn lemma_property_views_len(s: Seq<(String, PropertyDef)>)
    ensures
        property_views(s).len() == s.len(),
    decreases s.len(),
{
    if s.len() > 0 {
        lemma_property_views_len(s.drop_last());
    }
}

/// Whether two property definitions are the same.
pub fn property_equal(a: &PropertyDef, b: &PropertyDef) -> (r: bool)
    ensures
        r == (property_view(*a) == property_view(*b)),
    decreases a,
{
    if a.prop_type != b.prop_type || !opt_string_equal(&a.description, &b.description) {
        return false;
    }
    let ev = match (&a.enum_values, &b.enum_values) {
        (Some(x), Some(y)) => json_seq_equal(x, y),
        (None, None) => true,
        _ => false,
    };
    if !ev || !opt_json_equal(&a.default, &b.default) {
        return false;
    }
    let items = match (&a.items, &b.items) {
        (Some(x), Some(y)) => {
            proof {
                assert(decreases_to!(*a => a.items));
                assert(decreases_to!(a.items => a.items->0));
            }
            property_equal(x, y)
        },
        (None, None) => true,
        _ => false,
    };
    if !items || !strings_equal(&a.required, &b.required) || !json_fields_equal(&a.extra, &b.extra) {
        return false;
    }
    proof {
        lemma_property_views_len(a.properties@);
        lemma_property_views_len(b.properties@);
    }
    if a.properties.len() != b.properties.len() {
        return false;
    }
    let mut i: usize = 0;
    while i < a.properties.len()
        invariant
            a.properties.len() == b.properties.len(),
            i <= a.properties.len(),
            forall|j: int| 0 <= j < i ==> (a.properties@[j].0@, property_view(a.properties@[j].1)) == (
                b.properties@[j].0@,
                property_view(b.properties@[j].1),
            ),
        decreases a.properties.len() - i,
    {
        proof {
            assert(decreases_to!(*a => a.properties));
            assert(decreases_to!(a.properties => a.properties@));
            assert(decreases_to!(a.properties@ => a.properties@[i as int]));
            assert(decreases_to!(a.properties@[i as int] => a.properties@[i as int].1));
        }
        if a.properties[i].0 != b.properties[i].0 || !property_equal(&a.properties[i].1, &b.properties[i].1) {
            proof {
                lemma_property_views_index(a.properties@, i as int);
                lemma_property_views_index(b.properties@, i as int);
                assert(property_views(a.properties@)[i as int] != property_views(b.properties@)[i as int]);
            }
            return false;
        }
        i = i + 1;
    }
    proof {
        assert forall|j: int| 0 <= j < a.properties@.len() implies property_views(a.properties@)[j]
            == property_views(b.properties@)[j] by {
            lemma_property_views_index(a.properties@, j);
            lemma_property_views_index(b.properties@, j);
        }
        assert(property_views(a.properties@) =~= property_views(b.properties@));
    }
    true
}

pub open spec fn view_opt_schema(o: Option<InputSchema>) -> Option<(Seq<char>, Seq<(Seq<char>, PropertyView)>, Seq<Seq<char>>)> {
    match o {
        Some(s) => Some((s.schema_type@, property_views(s.properties@), view_strings(s.required@))),
        None => None,
    }
}

pub fn opt_schema_equal(a: &Option<InputSchema>, b: &Option<InputSchema>) -> (r: bool)
    ensures
        r == (view_opt_schema(*a) == view_opt_schema(*b)),
{
    match (a, b) {
        (Some(x), Some(y)) => {
            if x.schema_type != y.schema_type || !strings_equal(&x.required, &y.required) {
                return false;
            }
            proof {
                lemma_property_views_len(x.properties@);
                lemma_property_views_len(y.properties@);
            }
            if x.properties.len() != y.properties.len() {
                return false;
            }
            let mut i: usize = 0;
            while i < x.properties.len()
                invariant
                    x.properties.len() == y.properties.len(),
                    i <= x.properties.len(),
                    *a == Some(*x),
                    *b == Some(*y),
                    forall|j: int| 0 <= j < i ==> (x.properties@[j].0@, property_view(x.properties@[j].1)) == (
                        y.properties@[j].0@,
                        property_view(y.properties@[j].1),
                    ),
                decreases x.properties.len() - i,
            {
                if x.properties[i].0 != y.properties[i].0 || !property_equal(&x.properties[i].1, &y.properties[i].1) {
                    proof {
                        lemma_property_views_index(x.properties@, i as int);
                        lemma_property_views_index(y.properties@, i as int);
                        assert(property_views(x.properties@)[i as int] != property_views(y.properties@)[i as int]);
                    }
                    return false;
                }
                i = i + 1;
            }
            proof {
                assert forall|j: int| 0 <= j < x.properties@.len() implies property_views(x.properties@)[j]
                    == property_views(y.properties@)[j] by {
                    lemma_property_views_index(x.properties@, j);
                    lemma_property_views_index(y.properties@, j);
                }
                assert(property_views(x.properties@) =~= property_views(y.properties@));
            }
            true
        },
        (None, None) => true,
        _ => false,
    }
}

pub enum AuthView {
    Bearer(Seq<char>),
    Basic(Seq<char>, Seq<char>),
    ApiKey(Seq<char>, Seq<char>),
}

pub open spec fn view_opt_auth(o: Option<AuthConfig>) -> Option<AuthView> {
    match o {
        Some(AuthConfig::Bearer { token }) => Some(AuthView::Bearer(token@)),
        Some(AuthConfig::Basic { username, password }) => Some(AuthView::Basic(username@, password@)),
        Some(AuthConfig::ApiKey { header, value }) => Some(AuthView::ApiKey(header@, value@)),
        None => None,
    }
}

pub fn opt_auth_equal(a: &Option<AuthConfig>, b: &Option<AuthConfig>) -> (r: bool)
    ensures
        r == (view_opt_auth(*a) == view_opt_auth(*b)),
{
    match (a, b) {
        (Some(AuthConfig::Bearer { token: x }), Some(AuthConfig::Bearer { token: y })) => *x == *y,
        (
            Some(AuthConfig::Basic { username: u1, password: p1 }),
            Some(AuthConfig::Basic { username: u2, password: p2 }),
        ) => *u1 == *u2 && *p1 == *p2,
        (
            Some(AuthConfig::ApiKey { header: h1, value: v1 }),
            Some(AuthConfig::ApiKey { header: h2, value: v2 }),
        ) => *h1 == *h2 && *v1 == *v2,
        (None, None) => true,
        _ => false,
    }
}

pub open spec fn view_steps(s: Seq<PipelineStep>) -> Seq<(Option<Seq<char>>, Seq<char>, Seq<(Seq<char>, Seq<char>)>)> {
    s.map_values(|p: PipelineStep| (view_opt_string(p.id), p.tool@, view_pairs(p.input@)))
}

pub fn steps_equal(a: &Vec<PipelineStep>, b: &Vec<PipelineStep>) -> (r: bool)
    ensures
        r == (view_steps(a@) == view_steps(b@)),
{
    if a.len() != b.len() {
        proof {
            assert(view_steps(a@).len() != view_steps(b@).len());
        }
        return false;
    }
    let mut i: usize = 0;
    while i < a.len()
        invariant
            a.len() == b.len(),
            i <= a.len(),
            forall|j: int| 0 <= j < i ==> view_steps(a@)[j] == view_steps(b@)[j],
        decreases a.len() - i,
    {
        if !opt_string_equal(&a[i].id, &b[i].id) || a[i].tool != b[i].tool || !pairs_equal(&a[i].input, &b[i].input) {
            proof {
                assert(view_steps(a@)[i as int] != view_steps(b@)[i as int]);
            }
            return false;
        }
        i = i + 1;
    }
    proof {
        assert(view_steps(a@) =~= view_steps(b@));
    }
    true
}

pub open spec fn view_opt_output(o: Option<OutputConfig>) -> Option<(OutputParse, Option<JsonView>)> {
    match o {
        Some(c) => Some((c.parse, view_opt_json(c.schema))),
        None => None,
    }
}

/// Two tool definitions are the same: every field holds the same value.
pub open spec fn same_tool(a: ToolConfig, b: ToolConfig) -> bool {
    &&& a.name@ == b.name@
    &&& a.tool_type == b.tool_type
    &&& a.description@ == b.description@
    &&& view_opt_string(a.command) == view_opt_string(b.command)
    &&& view_strings(a.args@) == view_strings(b.args@)
    &&& view_opt_string(a.cwd) == view_opt_string(b.cwd)
    &&& view_pairs(a.env@) == view_pairs(b.env@)
    &&& a.method == b.method
    &&& view_opt_string(a.url) == view_opt_string(b.url)
    &&& view_pairs(a.headers@) == view_pairs(b.headers@)
    &&& view_pairs(a.query_params@) == view_pairs(b.query_params@)
    &&& view_opt_auth(a.auth) == view_opt_auth(b.auth)
    &&& view_opt_string(a.body) == view_opt_string(b.body)
    &&& a.driver == b.driver
    &&& view_opt_string(a.dsn) == view_opt_string(b.dsn)
    &&& view_opt_string(a.query) == view_opt_string(b.query)
    &&& view_steps(a.steps@) == view_steps(b.steps@)
    &&& a.timeout_ms == b.timeout_ms
    &&& view_strings(a.depends_on@) == view_strings(b.depends_on@)
    &&& a.enabled == b.enabled
    &&& view_opt_schema(a.input) == view_opt_schema(b.input)
    &&& a.retry == b.retry
    &&& a.annotations == b.annotations
    &&& view_opt_output(a.output) == view_opt_output(b.output)
    &&& a.cache == b.cache
}

pub fn tool_equal(a: &ToolConfig, b: &ToolConfig) -> (r: bool)
    ensures
        r == same_tool(*a, *b),
{
    let out = match (&a.output, &b.output) {
        (Some(x), Some(y)) => x.parse == y.parse && opt_json_equal(&x.schema, &y.schema),
        (None, None) => true,
        _ => false,
    };
    a.name == b.name && a.tool_type == b.tool_type && a.description == b.description && opt_string_equal(
        &a.command,
        &b.command,
    ) && strings_equal(&a.args, &b.args) && opt_string_equal(&a.cwd, &b.cwd) && pairs_equal(&a.env, &b.env)
        && a.method == b.method && opt_string_equal(&a.url, &b.url) && pairs_equal(&a.headers, &b.headers)
        && pairs_equal(&a.query_params, &b.query_params) && opt_auth_equal(&a.auth, &b.auth)
        && opt_string_equal(&a.body, &b.body) && a.driver == b.driver && opt_string_equal(&a.dsn, &b.dsn)
        && opt_string_equal(&a.query, &b.query) && steps_equal(&a.steps, &b.steps) && a.timeout_ms
        == b.timeout_ms && strings_equal(&a.depends_on, &b.depends_on) && a.enabled == b.enabled
        && opt_schema_equal(&a.input, &b.input) && a.retry == b.retry && a.annotations == b.annotations && out
        && a.cache == b.cache
}

pub open spec fn view_opt_healthcheck(o: Option<HealthcheckConfig>) -> Option<(HealthcheckType, Option<Seq<char>>, u64, u64)> {
    match o {
        Some(h) => Some((h.check_type, view_opt_string(h.url), h.interval_ms, h.timeout_ms)),
        None => None,
    }
}

/// Two service definitions are the same: every field holds the same value.
pub open spec fn same_service(a: ServiceConfig, b: ServiceConfig) -> bool {
    &&& a.name@ == b.name@
    &&& a.command@ == b.command@
    &&& view_strings(a.args@) == view_strings(b.args@)
    &&& a.cwd@ == b.cwd@
    &&& view_pairs(a.env@) == view_pairs(b.env@)
    &&& a.autostart == b.autostart
    &&& a.restart == b.restart
    &&& view_opt_healthcheck(a.healthcheck) == view_opt_healthcheck(b.healthcheck)
}

pub fn service_equal(a: &ServiceConfig, b: &ServiceConfig) -> (r: bool)
    ensures
        r == same_service(*a, *b),
{
    let hc = match (&a.healthcheck, &b.healthcheck) {
        (Some(x), Some(y)) => x.check_type == y.check_type && opt_string_equal(&x.url, &y.url) && x.interval_ms
            == y.interval_ms && x.timeout_ms == y.timeout_ms,
        (None, None) => true,
        _ => false,
    };
    a.name == b.name && a.command == b.command && strings_equal(&a.args, &b.args) && a.cwd == b.cwd
        && pairs_equal(&a.env, &b.env) && a.autostart == b.autostart && a.restart == b.restart && hc
}

} // verus!
