//! The http adapter's decisions: what request to send, and what each response
//! or failure means for the call. Sending is the caller's part.
use crate::adapters::ToolResult;
use crate::config::model::{view_pairs, AuthConfig, AuthView, HttpMethod, RetryConfig, StrMap, ToolConfig};
use crate::json::JsonValue;
use crate::template::render::{
    merge_vars, object_fields, render_error_text, render_spec, render_template, string_vars, RenderError,
    RenderFailure, Vars,
};
use crate::text::{cat2, cat5};
use vstd::prelude::*;
use vstd::string::*;

verus! {

/// A list of `(name, template)` pairs rendered in order; the first failure
/// counts.
pub open spec fn rendered_pairs(s: Seq<(String, String)>, vars: Seq<(Seq<char>, crate::json::JsonView)>) -> Result<
    Seq<(Seq<char>, Seq<char>)>,
    RenderFailure,
>
    decreases s.len(),
{
    if s.len() == 0 {
        Ok(Seq::empty())
    } else {
        match rendered_pairs(s.drop_last(), vars) {
            Err(e) => Err(e),
            Ok(prev) => match render_spec(s.last().1@, vars) {
                Err(e) => Err(e),
                Ok(v) => Ok(prev.push((s.last().0@, v))),
            },
        }
    }
}

/// Each header or query parameter sent keeps its name and has its template
/// rendered against the call's variables, in the same order; rendering them
/// succeeds exactly when every template renders.
pub proof fn law_pairs_are_rendered(s: Seq<(String, String)>, vars: Seq<(Seq<char>, crate::json::JsonView)>)
    ensures
        rendered_pairs(s, vars) is Ok <==> forall|i: int| 0 <= i < s.len() ==> #[trigger] render_spec(s[i].1@, vars) is Ok,
        rendered_pairs(s, vars) matches Ok(r) ==> r.len() == s.len() && forall|i: int|
            0 <= i < s.len() ==> (#[trigger] r[i]).0 == s[i].0@ && render_spec(s[i].1@, vars) == Ok::<
                Seq<char>,
                RenderFailure,
            >(r[i].1),
    decreases s.len(),
{
    if s.len() > 0 {
        let rest = s.drop_last();
        law_pairs_are_rendered(rest, vars);
        assert forall|i: int| 0 <= i < rest.len() implies rest[i] == s[i] by {}
        if !(rendered_pairs(s, vars) is Ok) {
            if rendered_pairs(rest, vars) is Ok {
                assert(!(render_spec(s[s.len() - 1].1@, vars) is Ok));
            } else {
                let i = choose|i: int| 0 <= i < rest.len() && !(#[trigger] render_spec(rest[i].1@, vars) is Ok);
                assert(!(render_spec(s[i].1@, vars) is Ok));
            }
        }
    }
}

fn render_pairs(pairs: &StrMap, vars: &Vars) -> (r: Result<StrMap, RenderError>)
    ensures
        match r {
            Ok(v) => rendered_pairs(pairs@, vars@) == Ok::<Seq<(Seq<char>, Seq<char>)>, RenderFailure>(view_pairs(v@)),
            Err(e) => rendered_pairs(pairs@, vars@) == Err::<Seq<(Seq<char>, Seq<char>)>, RenderFailure>(e@),
        },
{
    let mut out: StrMap = Vec::new();
    let mut i: usize = 0;
    proof {
        assert(view_pairs(out@) =~= Seq::<(Seq<char>, Seq<char>)>::empty());
        assert(pairs@.take(0).len() == 0);
    }
    while i < pairs.len()
        invariant
            i <= pairs@.len(),
            rendered_pairs(pairs@.take(i as int), vars@) == Ok::<Seq<(Seq<char>, Seq<char>)>, RenderFailure>(
                view_pairs(out@),
            ),
        decreases pairs@.len() - i,
    {
        proof {
            assert(pairs@.take(i + 1).drop_last() =~= pairs@.take(i as int));
        }
        match render_template(pairs[i].1.as_str(), vars) {
            Ok(v) => {
                let k = pairs[i].0.clone();
                let ghost prev = out@;
                out.push((k, v));
                proof {
                    assert(out@.drop_last() == prev);
                    let t = pairs@.take(i + 1);
                    assert(t.last() == pairs@[i as int]);
                    assert(view_pairs(out@) =~= view_pairs(out@.drop_last()).push((pairs@[i as int].0@, v@)));
                    assert(rendered_pairs(t, vars@) == Ok::<Seq<(Seq<char>, Seq<char>)>, RenderFailure>(
                        view_pairs(out@),
                    ));
                }
            },
            Err(e) => {
                proof {
                    let t = pairs@.take(i + 1);
                    assert(t.last() == pairs@[i as int]);
                    assert(rendered_pairs(t, vars@) == Err::<Seq<(Seq<char>, Seq<char>)>, RenderFailure>(e@));
                    lemma_rendered_pairs_err(pairs@, i + 1, e@, vars@);
                }
                return Err(e);
            },
        }
        i = i + 1;
    }
    proof {
        assert(pairs@.take(pairs@.len() as int) =~= pairs@);
    }
    Ok(out)
}

/// A failure in a prefix is the failure of the whole list.
proof fn lemma_rendered_pairs_err(
    s: Seq<(String, String)>,
    n: int,
    e: RenderFailure,
    vars: Seq<(Seq<char>, crate::json::JsonView)>,
)
    requires
        0 <= n <= s.len(),
        rendered_pairs(s.take(n), vars) == Err::<Seq<(Seq<char>, Seq<char>)>, RenderFailure>(e),
    ensures
        rendered_pairs(s, vars) == Err::<Seq<(Seq<char>, Seq<char>)>, RenderFailure>(e),
    decreases s.len() - n,
{
    if n < s.len() {
        assert(s.take(n + 1).drop_last() =~= s.take(n));
        lemma_rendered_pairs_err(s, n + 1, e, vars);
    } else {
        assert(s.take(n) =~= s);
    }
}

/// Renders each header value; names stay as they are.
pub fn render_headers(headers: &StrMap, vars: &Vars) -> (r: Result<StrMap, RenderError>)
    ensures
        match r {
            Ok(v) => rendered_pairs(headers@, vars@) == Ok::<Seq<(Seq<char>, Seq<char>)>, RenderFailure>(
                view_pairs(v@),
            ),
            Err(e) => rendered_pairs(headers@, vars@) == Err::<Seq<(Seq<char>, Seq<char>)>, RenderFailure>(e@),
        },
{
    render_pairs(headers, vars)
}

/// Renders each query parameter value; names stay as they are.
pub fn render_query(query: &StrMap, vars: &Vars) -> (r: Result<StrMap, RenderError>)
    ensures
        match r {
            Ok(v) => rendered_pairs(query@, vars@) == Ok::<Seq<(Seq<char>, Seq<char>)>, RenderFailure>(
                view_pairs(v@),
            ),
            Err(e) => rendered_pairs(query@, vars@) == Err::<Seq<(Seq<char>, Seq<char>)>, RenderFailure>(e@),
        },
{
    render_pairs(query, vars)
}

/// Auth with its `{{var}}` fields resolved, ready to apply to the request.
#[derive(Debug)]
pub enum AppliedAuth {
    Bearer(String),
    Basic { username: String, password: String },
    ApiKey { header: String, value: String },
}

pub open spec fn applied_view(a: Option<AppliedAuth>) -> Option<AuthView> {
    match a {
        Some(AppliedAuth::Bearer(t)) => Some(AuthView::Bearer(t@)),
        Some(AppliedAuth::Basic { username, password }) => Some(AuthView::Basic(username@, password@)),
        Some(AppliedAuth::ApiKey { header, value }) => Some(AuthView::ApiKey(header@, value@)),
        None => None,
    }
}

/// The auth block with each field rendered, fields in declaration order.
pub open spec fn rendered_auth(a: Option<AuthConfig>, vars: Seq<(Seq<char>, crate::json::JsonView)>) -> Result<
    Option<AuthView>,
    RenderFailure,
> {
    match a {
        None => Ok(None),
        Some(AuthConfig::Bearer { token }) => match render_spec(token@, vars) {
            Ok(t) => Ok(Some(AuthView::Bearer(t))),
            Err(e) => Err(e),
        },
        Some(AuthConfig::Basic { username, password }) => match render_spec(username@, vars) {
            Err(e) => Err(e),
            Ok(u) => match render_spec(password@, vars) {
                Err(e) => Err(e),
                Ok(p) => Ok(Some(AuthView::Basic(u, p))),
            },
        },
        Some(AuthConfig::ApiKey { header, value }) => match render_spec(header@, vars) {
            Err(e) => Err(e),
            Ok(h) => match render_spec(value@, vars) {
                Err(e) => Err(e),
                Ok(v) => Ok(Some(AuthView::ApiKey(h, v))),
            },
        },
    }
}

pub fn render_auth(auth: Option<&AuthConfig>, vars: &Vars) -> (r: Result<Option<AppliedAuth>, RenderError>)
    ensures
        match r {
            Ok(a) => rendered_auth(
                match auth {
                    Some(x) => Some(*x),
                    None => None,
                },
                vars@,
            ) == Ok::<Option<AuthView>, RenderFailure>(applied_view(a)),
            Err(e) => rendered_auth(
                match auth {
                    Some(x) => Some(*x),
                    None => None,
                },
                vars@,
            ) == Err::<Option<AuthView>, RenderFailure>(e@),
        },
{
    match auth {
        None => Ok(None),
        Some(AuthConfig::Bearer { token }) => {
            let t = render_template(token.as_str(), vars)?;
            Ok(Some(AppliedAuth::Bearer(t)))
        },
        Some(AuthConfig::Basic { username, password }) => {
            let u = render_template(username.as_str(), vars)?;
            let p = render_template(password.as_str(), vars)?;
            Ok(Some(AppliedAuth::Basic { username: u, password: p }))
        },
        Some(AuthConfig::ApiKey { header, value }) => {
            let h = render_template(header.as_str(), vars)?;
            let v = render_template(value.as_str(), vars)?;
            Ok(Some(AppliedAuth::ApiKey { header: h, value: v }))
        },
    }
}

/// How many times a request is tried: once, plus the configured retries.
pub open spec fn max_attempts_for(retry: Option<RetryConfig>) -> u64 {
    match retry {
        Some(r) => (1 + r.max_retries) as u64,
        None => 1,
    }
}

pub open spec fn retry_delay_for(retry: Option<RetryConfig>) -> u64 {
    match retry {
        Some(r) => r.retry_delay_ms,
        None => 0,
    }
}

/// The first template failure among url, headers, query, auth and body, in
/// that order.
pub open spec fn http_render_failure(tool: ToolConfig, url: Seq<char>, vars: Seq<(Seq<char>, crate::json::JsonView)>) -> Option<
    RenderFailure,
> {
    match render_spec(url, vars) {
        Err(e) => Some(e),
        Ok(_) => match rendered_pairs(tool.headers@, vars) {
            Err(e) => Some(e),
            Ok(_) => match rendered_pairs(tool.query_params@, vars) {
                Err(e) => Some(e),
                Ok(_) => match rendered_auth(tool.auth, vars) {
                    Err(e) => Some(e),
                    Ok(_) => match tool.body {
                        None => None,
                        Some(b) => match render_spec(b@, vars) {
                            Err(e) => Some(e),
                            Ok(_) => None,
                        },
                    },
                },
            },
        },
    }
}

/// A request ready to send, with every template rendered.
pub struct HttpPlan {
    pub method: HttpMethod,
    pub url: String,
    pub timeout_ms: u64,
    pub headers: StrMap,
    pub query: StrMap,
    pub auth: Option<AppliedAuth>,
    pub body: Option<String>,
    pub max_attempts: u64,
    pub retry_delay_ms: u64,
}

/// What the plan of a well-formed http tool holds, with `vars` the call's
/// variables.
pub open spec fn plan_matches(p: HttpPlan, tool: ToolConfig, url: Seq<char>, method: HttpMethod, vars: Seq<(Seq<char>, crate::json::JsonView)>) -> bool {
    &&& p.method == method
    &&& render_spec(url, vars) == Ok::<Seq<char>, RenderFailure>(p.url@)
    &&& rendered_pairs(tool.headers@, vars) == Ok::<Seq<(Seq<char>, Seq<char>)>, RenderFailure>(view_pairs(p.headers@))
    &&& rendered_pairs(tool.query_params@, vars) == Ok::<Seq<(Seq<char>, Seq<char>)>, RenderFailure>(view_pairs(p.query@))
    &&& rendered_auth(tool.auth, vars) == Ok::<Option<AuthView>, RenderFailure>(applied_view(p.auth))
    &&& match tool.body {
        None => p.body is None,
        Some(b) => p.body matches Some(pb) && render_spec(b@, vars) == Ok::<Seq<char>, RenderFailure>(pb@),
    }
    &&& p.timeout_ms == tool.timeout_ms
    &&& p.max_attempts == max_attempts_for(tool.retry)
    &&& p.retry_delay_ms == retry_delay_for(tool.retry)
}

/// The request an http tool sends for a call with `input`: url and method are
/// required; url, header and query values, auth fields and body are rendered
/// against the input and then the config variables.
pub fn plan_http(tool: &ToolConfig, input: &JsonValue, config_vars: &StrMap) -> (r: Result<HttpPlan, String>)
    ensures
        match tool.url {
            None => r matches Err(m) && m@ == "http tool missing 'url'"@,
            Some(u) => match tool.method {
                None => r matches Err(m) && m@ == "http tool missing 'method'"@,
                Some(method) => {
                    let vars = object_fields(input@) + string_vars(config_vars@);
                    match http_render_failure(*tool, u@, vars) {
                        Some(e) => r matches Err(m) && m@ == render_error_text(e),
                        None => r matches Ok(p) && plan_matches(p, *tool, u@, method, vars),
                    }
                },
            },
        },
{
    let url_template = match &tool.url {
        Some(u) => u,
        None => return Err(String::from_str("http tool missing 'url'")),
    };
    let method = match &tool.method {
        Some(m) => *m,
        None => return Err(String::from_str("http tool missing 'method'")),
    };
    let vars = merge_vars(input, config_vars);
    let url = match render_template(url_template.as_str(), &vars) {
        Ok(u) => u,
        Err(e) => return Err(e.to_string()),
    };
    let headers = match render_headers(&tool.headers, &vars) {
        Ok(h) => h,
        Err(e) => return Err(e.to_string()),
    };
    let query = match render_query(&tool.query_params, &vars) {
        Ok(q) => q,
        Err(e) => return Err(e.to_string()),
    };
    let auth = match render_auth(tool.auth.as_ref(), &vars) {
        Ok(a) => a,
        Err(e) => return Err(e.to_string()),
    };
    let body = match &tool.body {
        Some(tpl) => match render_template(tpl.as_str(), &vars) {
            Ok(b) => Some(b),
            Err(e) => return Err(e.to_string()),
        },
        None => None,
    };
    let (max_attempts, retry_delay_ms) = match &tool.retry {
        Some(retry) => (1 + retry.max_retries as u64, retry.retry_delay_ms),
        None => (1, 0),
    };
    Ok(
        HttpPlan {
            method,
            url,
            timeout_ms: tool.timeout_ms,
            headers,
            query,
            auth,
            body,
            max_attempts,
            retry_delay_ms,
        },
    )
}

/// What one attempt of a request came to.
pub enum HttpOutcome {
    /// A response: its status code, the status as text (`404 Not Found`), and
    /// its body.
    Response { status: u16, status_text: String, body: String },
    /// The request failed, with this error text.
    Failed(String),
}

/// What to do after an attempt.
pub enum HttpStep {
    /// The call is over with this result.
    Finish(ToolResult),
    /// Wait the retry delay and try again.
    Retry { last_error: String },
    /// The call failed with this error.
    Fail(String),
}

pub open spec fn is_success(status: u16) -> bool {
    200 <= status <= 299
}

pub open spec fn is_client_error(status: u16) -> bool {
    400 <= status <= 499
}

/// The result an http response gives the call.
pub open spec fn response_result(t: ToolResult, status: u16, status_text: Seq<char>, body: Seq<char>) -> bool {
    &&& t.stdout@ == body
    &&& t.stderr@ == (if is_success(status) {
        Seq::<char>::empty()
    } else {
        "HTTP "@ + status_text
    })
    &&& t.exit_code == Some(status as i32)
    &&& t.is_error == !is_success(status)
    &&& t.structured is None
}

/// Decides what attempt number `attempt` (counting from 1) of at most
/// `max_attempts` came to: a success or a client error ends the call; a server
/// error or a failed request is retried while attempts are left, after which
/// the last response stands, or the call fails.
pub fn http_step(tool_name: &str, url: &str, attempt: u64, max_attempts: u64, outcome: HttpOutcome) -> (r: HttpStep)
    ensures
        match outcome {
            HttpOutcome::Response { status, status_text, body } => if is_success(status) || is_client_error(status) {
                r matches HttpStep::Finish(t) && response_result(t, status, status_text@, body@)
            } else if attempt < max_attempts {
                r matches HttpStep::Retry { last_error } && last_error@ == "HTTP "@ + status_text@
            } else {
                r matches HttpStep::Finish(t) && response_result(t, status, status_text@, body@)
            },
            HttpOutcome::Failed(e) => if attempt < max_attempts {
                r matches HttpStep::Retry { last_error } && last_error@ == e@
            } else {
                r matches HttpStep::Fail(m) && m@ == "http tool '"@ + tool_name@ + "': request to "@ + url@
                    + " failed"@
            },
        },
{
    match outcome {
        HttpOutcome::Response { status, status_text, body } => {
            let success = 200 <= status && status <= 299;
            let client_error = 400 <= status && status <= 499;
            if !success && !client_error && attempt < max_attempts {
                return HttpStep::Retry { last_error: cat2("HTTP ", status_text.as_str()) };
            }
            let stderr = if success {
                String::new()
            } else {
                cat2("HTTP ", status_text.as_str())
            };
            HttpStep::Finish(
                ToolResult { stdout: body, stderr, exit_code: Some(status as i32), is_error: !success, structured: None },
            )
        },
        HttpOutcome::Failed(e) => {
            if attempt < max_attempts {
                HttpStep::Retry { last_error: e }
            } else {
                HttpStep::Fail(cat5("http tool '", tool_name, "': request to ", url, " failed"))
            }
        },
    }
}

/// The templates of an auth block, in declaration order.
pub open spec fn auth_templates(a: AuthConfig) -> Seq<Seq<char>> {
    match a {
        AuthConfig::Bearer { token } => seq![token@],
        AuthConfig::Basic { username, password } => seq![username@, password@],
        AuthConfig::ApiKey { header, value } => seq![header@, value@],
    }
}

/// The fields of an applied auth, in declaration order.
pub open spec fn auth_fields(a: AuthView) -> Seq<Seq<char>> {
    match a {
        AuthView::Bearer(t) => seq![t],
        AuthView::Basic(u, p) => seq![u, p],
        AuthView::ApiKey(h, v) => seq![h, v],
    }
}

/// Every field of the auth an http call applies is its template rendered
/// against the call's variables, and the auth keeps its kind; rendering the
/// auth fails exactly when one of its templates fails to render, with the
/// error of the first that fails.
pub proof fn law_auth_fields_are_rendered(a: AuthConfig, vars: Seq<(Seq<char>, crate::json::JsonView)>)
    ensures
        rendered_auth(Some(a), vars) matches Ok(Some(x)) ==> {
            &&& auth_fields(x).len() == auth_templates(a).len()
            &&& forall|i: int|
                0 <= i < auth_fields(x).len() ==> render_spec(auth_templates(a)[i], vars) == Ok::<
                    Seq<char>,
                    RenderFailure,
                >(#[trigger] auth_fields(x)[i])
            &&& (a is Bearer <==> x is Bearer) && (a is Basic <==> x is Basic) && (a is ApiKey <==> x is ApiKey)
        },
        rendered_auth(Some(a), vars) is Ok <==> forall|i: int|
            0 <= i < auth_templates(a).len() ==> #[trigger] render_spec(auth_templates(a)[i], vars) is Ok,
        rendered_auth(Some(a), vars) is Ok ==> rendered_auth(Some(a), vars) matches Ok(Some(_)),
        forall|i: int|
            0 <= i < auth_templates(a).len() && (forall|j: int|
                0 <= j < i ==> render_spec(auth_templates(a)[j], vars) is Ok) ==> (#[trigger] render_spec(
                auth_templates(a)[i],
                vars,
            ) matches Err(e) ==> rendered_auth(Some(a), vars) == Err::<Option<AuthView>, RenderFailure>(e)),
{
    let ts = auth_templates(a);
    match a {
        AuthConfig::Bearer { token } => {
            assert(ts[0] == token@);
        },
        AuthConfig::Basic { username, password } => {
            assert(ts[0] == username@);
            assert(ts[1] == password@);
        },
        AuthConfig::ApiKey { header, value } => {
            assert(ts[0] == header@);
            assert(ts[1] == value@);
        },
    }
}

} // verus!
