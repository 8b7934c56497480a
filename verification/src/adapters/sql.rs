use crate::adapters::ToolResult;
use crate::config::model::{SqlDriver, StrMap, ToolAnnotations, ToolConfig};
use crate::config::validate::has_raw_prefix;
use crate::json::{json_pretty_text, json_text, view_json, view_json_fields, json_to_pretty_string, json_to_string, JsonValue, JsonView, view_json_seq};
use crate::template::render::{
    close_at, find_close, lemma_close_at_bounds, lookup, lookup_entry, merge_vars, object_fields, opens_at,
    render_error_text, render_spec, render_template, string_vars, value_text, value_to_text, RenderFailure, Vars,
};
use crate::text::{all_digits, digits_up_to, digits_value, cat2, cat3, cat5, chars_of, decimal, has_prefix, str_eq, trim, trim_start, trim_start_str, trim_str, u64_to_decimal};
use vstd::prelude::*;
use vstd::string::*;

verus! {

pub open spec fn is_ident_start(c: char) -> bool {
    ('a' <= c && c <= 'z') || ('A' <= c && c <= 'Z') || c == '_'
}

pub open spec fn is_ident_char(c: char) -> bool {
    is_ident_start(c) || ('0' <= c && c <= '9')
}

/// A strict SQL identifier: an ASCII letter or `_`, then ASCII letters,
/// digits or `_`.
pub open spec fn is_identifier(s: Seq<char>) -> bool {
    s.len() > 0 && is_ident_start(s[0]) && forall|i: int| 1 <= i < s.len() ==> #[trigger] is_ident_char(s[i])
}

pub fn is_valid_identifier(s: &str) -> (r: bool)
    ensures
        r == is_identifier(s@),
{
    let c = chars_of(s);
    if c.len() == 0 {
        return false;
    }
    let c0 = c[0];
    if !(('a' <= c0 && c0 <= 'z') || ('A' <= c0 && c0 <= 'Z') || c0 == '_') {
        return false;
    }
    let mut i: usize = 1;
    while i < c.len()
        invariant
            1 <= i <= c.len(),
            c@ == s@,
            forall|j: int| 1 <= j < i ==> #[trigger] is_ident_char(s@[j]),
        decreases c.len() - i,
    {
        let ch = c[i];
        if !(('a' <= ch && ch <= 'z') || ('A' <= ch && ch <= 'Z') || ch == '_' || ('0' <= ch && ch <= '9')) {
            proof {
                assert(!is_ident_char(s@[i as int]));
            }
            return false;
        }
        i = i + 1;
    }
    true
}

/// Why a query template could not be turned into a bound statement.
pub enum SqlFailure {
    Unclosed(Seq<char>),
    Empty,
    Missing(Seq<char>),
    NotIdentifier(Seq<char>, Seq<char>),
    NonScalar(Seq<char>),
}

/// The error of [`build_bound_query`].
#[derive(Debug)]
pub enum SqlTemplateError {
    /// `{{` with no closing `}}`; holds the text after the `{{`.
    Unclosed(String),
    /// `{{ }}` with nothing but whitespace inside.
    EmptyPlaceholder,
    /// A placeholder naming no variable.
    MissingVariable(String),
    /// `{{raw:key}}` whose value is not a strict identifier: the key, the value.
    NotIdentifier(String, String),
    /// A bind placeholder whose value is an array or an object.
    NonScalar(String),
}

impl View for SqlTemplateError {
    type V = SqlFailure;

    open spec fn view(&self) -> SqlFailure {
        match self {
            SqlTemplateError::Unclosed(k) => SqlFailure::Unclosed(k@),
            SqlTemplateError::EmptyPlaceholder => SqlFailure::Empty,
            SqlTemplateError::MissingVariable(k) => SqlFailure::Missing(k@),
            SqlTemplateError::NotIdentifier(k, v) => SqlFailure::NotIdentifier(k@, v@),
            SqlTemplateError::NonScalar(k) => SqlFailure::NonScalar(k@),
        }
    }
}

pub open spec fn sql_error_text(e: SqlFailure) -> Seq<char> {
    match e {
        SqlFailure::Unclosed(k) => "unclosed template placeholder: {{"@ + k,
        SqlFailure::Empty => "empty template placeholder"@,
        SqlFailure::Missing(k) => "missing template variable: "@ + k,
        SqlFailure::NotIdentifier(k, v) => "raw substitution {{raw:"@ + k + "}} = '"@ + v
            + "' is not a valid SQL identifier"@,
        SqlFailure::NonScalar(k) => "cannot bind non-scalar value for {{"@ + k + "}}"@,
    }
}

impl SqlTemplateError {
    /// The error message.
    pub fn to_string(&self) -> (r: String)
        ensures
            r@ == sql_error_text(self@),
    {
        match self {
            SqlTemplateError::Unclosed(k) => cat2("unclosed template placeholder: {{", k.as_str()),
            SqlTemplateError::EmptyPlaceholder => String::from_str("empty template placeholder"),
            SqlTemplateError::MissingVariable(k) => cat2("missing template variable: ", k.as_str()),
            SqlTemplateError::NotIdentifier(k, v) => {
                let mut s = cat5("raw substitution {{raw:", k.as_str(), "}} = '", v.as_str(),
                    "' is not a valid SQL identifier");
                s
            },
            SqlTemplateError::NonScalar(k) => cat3("cannot bind non-scalar value for {{", k.as_str(), "}}"),
        }
    }
}

/// The driver's placeholder for the `n`-th bound value (1-based).
pub open spec fn bind_placeholder(driver: SqlDriver, n: nat) -> Seq<char> {
    match driver {
        SqlDriver::Postgres => "$"@ + decimal(n),
        SqlDriver::Sqlite => "?"@,
    }
}

pub open spec fn is_compound(v: JsonView) -> bool {
    v is Array || v is Object
}

pub open spec fn with_prefix(
    text: Seq<char>,
    vals: Seq<JsonView>,
    r: Result<(Seq<char>, Seq<JsonView>), SqlFailure>,
) -> Result<(Seq<char>, Seq<JsonView>), SqlFailure> {
    match r {
        Ok((s, v)) => Ok((text + s, vals + v)),
        Err(e) => Err(e),
    }
}

/// The statement and bind values for `t[i..]`, when `count` values were
/// bound before position `i`. `{{var}}` becomes the next driver placeholder
/// and its scalar value is bound; `{{raw:var}}` is replaced by the value's
/// text, which must be a strict identifier.
pub open spec fn bound_from(
    t: Seq<char>,
    i: int,
    vars: Seq<(Seq<char>, JsonView)>,
    driver: SqlDriver,
    count: nat,
) -> Result<(Seq<char>, Seq<JsonView>), SqlFailure>
    decreases t.len() - i,
{
    if i < 0 || i >= t.len() {
        Ok((Seq::empty(), Seq::empty()))
    } else if opens_at(t, i) {
        match close_at(t, i + 2) {
            None => Err(SqlFailure::Unclosed(t.subrange(i + 2, t.len() as int))),
            Some(k) => if i + 2 <= k && k + 2 <= t.len() {
                let key = trim(t.subrange(i + 2, k));
                if key.len() == 0 {
                    Err(SqlFailure::Empty)
                } else if has_raw_prefix(key) {
                    let rk = trim(key.subrange(4, key.len() as int));
                    match lookup(vars, rk) {
                        None => Err(SqlFailure::Missing(rk)),
                        Some(v) => if is_identifier(value_text(v)) {
                            with_prefix(value_text(v), Seq::empty(), bound_from(t, k + 2, vars, driver, count))
                        } else {
                            Err(SqlFailure::NotIdentifier(rk, value_text(v)))
                        },
                    }
                } else {
                    match lookup(vars, key) {
                        None => Err(SqlFailure::Missing(key)),
                        Some(v) => if is_compound(v) {
                            Err(SqlFailure::NonScalar(key))
                        } else {
                            with_prefix(
                                bind_placeholder(driver, count + 1),
                                seq![v],
                                bound_from(t, k + 2, vars, driver, count + 1),
                            )
                        },
                    }
                }
            } else {
                Ok((Seq::empty(), Seq::empty()))
            },
        }
    } else {
        with_prefix(seq![t[i]], Seq::empty(), bound_from(t, i + 1, vars, driver, count))
    }
}

pub open spec fn bound_spec(t: Seq<char>, vars: Seq<(Seq<char>, JsonView)>, driver: SqlDriver) -> Result<
    (Seq<char>, Seq<JsonView>),
    SqlFailure,
> {
    bound_from(t, 0, vars, driver, 0)
}

pub proof fn lemma_with_prefix_assoc(
    a: Seq<char>,
    av: Seq<JsonView>,
    b: Seq<char>,
    bv: Seq<JsonView>,
    r: Result<(Seq<char>, Seq<JsonView>), SqlFailure>,
)
    ensures
        with_prefix(a, av, with_prefix(b, bv, r)) == with_prefix(a + b, av + bv, r),
{
    match r {
        Ok((s, v)) => {
            assert((a + b) + s =~= a + (b + s));
            assert((av + bv) + v =~= av + (bv + v));
        },
        Err(_) => {},
    }
}

fn placeholder_text(driver: SqlDriver, n: usize) -> (r: String)
    ensures
        r@ == bind_placeholder(driver, n as nat),
{
    match driver {
        SqlDriver::Postgres => {
            let d = u64_to_decimal(n as u64);
            cat2("$", d.as_str())
        },
        SqlDriver::Sqlite => String::from_str("?"),
    }
}

/// Turn a `query` template into a parameterized statement + ordered bind values.
/// `{{var}}` becomes a driver placeholder (`$n` / `?`) bound as a value; a
/// non-scalar value is rejected. `{{raw:var}}` is interpolated as text but only
/// after the value passes a strict SQL-identifier allowlist — so neither role
/// permits injection.
pub fn build_bound_query(query: &str, vars: &Vars, driver: SqlDriver) -> (r: Result<
    (String, Vec<JsonValue>),
    SqlTemplateError,
>)
    ensures
        match r {
            Ok((s, vals)) => bound_spec(query@, vars@, driver) == Ok::<
                (Seq<char>, Seq<JsonView>),
                SqlFailure,
            >((s@, view_json_seq(vals@))),
            Err(e) => bound_spec(query@, vars@, driver) == Err::<(Seq<char>, Seq<JsonView>), SqlFailure>(
                e@,
            ),
        },
{
    let ghost t = query@;
    let c = chars_of(query);
    let n = c.len();
    let mut out = String::new();
    let mut values: Vec<JsonValue> = Vec::new();
    let mut i: usize = 0;
    while i < n
        invariant
            t == query@,
            c@ == t,
            n == t.len(),
            i <= n,
            bound_spec(t, vars@, driver) == with_prefix(
                out@,
                view_json_seq(values@),
                bound_from(t, i as int, vars@, driver, values@.len()),
            ),
        decreases n - i,
    {
        if i + 1 < n && c[i] == '{' && c[i + 1] == '{' {
            let start = i + 2;
            let kk = find_close(&c, start);
            if kk.is_none() {
                return Err(SqlTemplateError::Unclosed(String::from_str(query.substring_char(start, n))));
            }
            let k = kk.unwrap();
            proof {
                lemma_close_at_bounds(t, start as int);
            }
            let key = trim_str(query.substring_char(start, k));
            let kc = chars_of(key.as_str());
            if kc.len() == 0 {
                return Err(SqlTemplateError::EmptyPlaceholder);
            }
            if kc.len() >= 4 && kc[0] == 'r' && kc[1] == 'a' && kc[2] == 'w' && kc[3] == ':' {
                let raw_key = trim_str(key.as_str().substring_char(4, kc.len()));
                match lookup_entry(&vars.entries, &raw_key) {
                    None => {
                        return Err(SqlTemplateError::MissingVariable(raw_key));
                    },
                    Some(v) => {
                        let ident = value_to_text(v);
                        if !is_valid_identifier(ident.as_str()) {
                            return Err(SqlTemplateError::NotIdentifier(raw_key, ident));
                        }
                        let ghost before = out@;
                        out.append(ident.as_str());
                        proof {
                            lemma_with_prefix_assoc(before, view_json_seq(values@), ident@, Seq::empty(),
                                bound_from(t, k + 2, vars@, driver, values@.len()));
                            assert(view_json_seq(values@) + Seq::<JsonView>::empty() =~= view_json_seq(values@));
                        }
                    },
                }
            } else {
                match lookup_entry(&vars.entries, &key) {
                    None => {
                        return Err(SqlTemplateError::MissingVariable(key));
                    },
                    Some(v) => {
                        let compound = match v {
                            JsonValue::Array(_) => true,
                            JsonValue::Object(_) => true,
                            _ => false,
                        };
                        if compound {
                            return Err(SqlTemplateError::NonScalar(key));
                        }
                        let ghost before = out@;
                        let ghost before_vals = view_json_seq(values@);
                        let ghost cnt = values@.len();
                        let ghost prev = values@;
                        let item = v.duplicate();
                        values.push(item);
                        proof { assert(values@.drop_last() == prev); }
                        let ph = placeholder_text(driver, values.len());
                        out.append(ph.as_str());
                        proof {
                            assert(view_json_seq(values@) == before_vals.push(v@));
                            lemma_with_prefix_assoc(before, before_vals, ph@, seq![v@],
                                bound_from(t, k + 2, vars@, driver, cnt + 1));
                            assert(before_vals + seq![v@] =~= before_vals.push(v@));
                        }
                    },
                }
            }
            i = k + 2;
        } else {
            let ghost before = out@;
            out.append(query.substring_char(i, i + 1));
            proof {
                assert(query@.subrange(i as int, i + 1) =~= seq![t[i as int]]);
                lemma_with_prefix_assoc(before, view_json_seq(values@), seq![t[i as int]], Seq::empty(),
                    bound_from(t, i + 1, vars@, driver, values@.len()));
                assert(view_json_seq(values@) + Seq::<JsonView>::empty() =~= view_json_seq(values@));
            }
            i = i + 1;
        }
    }
    proof {
        assert(out@ + Seq::<char>::empty() =~= out@);
        assert(view_json_seq(values@) + Seq::<JsonView>::empty() =~= view_json_seq(values@));
    }
    Ok((out, values))
}

/// Whether the `read_only` annotation is set.
pub open spec fn read_only_of(a: Option<ToolAnnotations>) -> bool {
    match a {
        Some(x) => x.read_only == Some(true),
        None => false,
    }
}

/// A query ready to run: where, what, and with which variables.
pub struct SqlPlan {
    pub driver: SqlDriver,
    pub dsn: String,
    pub query: String,
    pub vars: Vars,
    pub read_only: bool,
    pub timeout_ms: u64,
}

/// What a sql tool runs for a call with `input`: driver, dsn and query are
/// required; the dsn is rendered against the input and then the config
/// variables; the query keeps its placeholders for [`build_bound_query`].
pub fn plan_sql(tool: &ToolConfig, input: &JsonValue, config_vars: &StrMap) -> (r: Result<SqlPlan, String>)
    ensures
        match (tool.driver, tool.dsn, tool.query) {
            (None, _, _) => r matches Err(m) && m@ == "sql tool missing 'driver'"@,
            (Some(_), None, _) => r matches Err(m) && m@ == "sql tool missing 'dsn'"@,
            (Some(_), Some(_), None) => r matches Err(m) && m@ == "sql tool missing 'query'"@,
            (Some(d), Some(dsn), Some(q)) => {
                let vars = object_fields(input@) + string_vars(config_vars@);
                match render_spec(dsn@, vars) {
                    Err(e) => r matches Err(m) && m@ == render_error_text(e),
                    Ok(rendered) => r matches Ok(p) && p.driver == d && p.dsn@ == rendered && p.query@ == q@
                        && p.vars@ == vars && p.read_only == read_only_of(tool.annotations) && p.timeout_ms
                        == tool.timeout_ms,
                }
            },
        },
{
    let driver = match tool.driver {
        Some(d) => d,
        None => return Err(String::from_str("sql tool missing 'driver'")),
    };
    let dsn_template = match &tool.dsn {
        Some(d) => d,
        None => return Err(String::from_str("sql tool missing 'dsn'")),
    };
    let query = match &tool.query {
        Some(q) => q.clone(),
        None => return Err(String::from_str("sql tool missing 'query'")),
    };
    let vars = merge_vars(input, config_vars);
    let dsn = match render_template(dsn_template.as_str(), &vars) {
        Ok(d) => d,
        Err(e) => return Err(e.to_string()),
    };
    let read_only = match &tool.annotations {
        Some(a) => match a.read_only {
            Some(b) => b,
            None => false,
        },
        None => false,
    };
    Ok(SqlPlan { driver, dsn, query, vars, read_only, timeout_ms: tool.timeout_ms })
}

/// The error of a query that failed to run.
pub fn query_failure_message(tool_name: &str) -> (r: String)
    ensures
        r@ == "sql tool '"@ + tool_name@ + "': query failed"@,
{
    cat3("sql tool '", tool_name, "': query failed")
}

/// What `str::to_uppercase` makes of a text.
pub uninterp spec fn uppercase(s: Seq<char>) -> Seq<char>;

/// `str::to_uppercase`; the contract names the result.
#[verifier::external_body]
fn to_uppercase(s: &str) -> (r: String)
    ensures
        r@ == uppercase(s@),
{
    s.to_uppercase()
}

/// A statement reads rows when, past leading whitespace and upper-cased, it
/// starts with `SELECT`.
pub fn is_select_statement(sql: &str) -> (r: bool)
    ensures
        r == has_prefix(uppercase(trim_start(sql@)), "SELECT"@),
{
    let t = trim_start_str(sql);
    let u = to_uppercase(t.as_str());
    let c = chars_of(u.as_str());
    proof {
        reveal_strlit("SELECT");
    }
    if c.len() < 6 {
        return false;
    }
    let r = c[0] == 'S' && c[1] == 'E' && c[2] == 'L' && c[3] == 'E' && c[4] == 'C' && c[5] == 'T';
    proof {
        let sel = "SELECT"@;
        assert(sel.len() == 6);
        assert(sel[0] == 'S' && sel[1] == 'E' && sel[2] == 'L' && sel[3] == 'E' && sel[4] == 'C' && sel[5] == 'T');
        if r {
            assert(u@.subrange(0, 6) =~= sel);
        } else if u@.subrange(0, 6) == sel {
            assert(u@.subrange(0, 6)[0] == u@[0]);
            assert(u@.subrange(0, 6)[1] == u@[1]);
            assert(u@.subrange(0, 6)[2] == u@[2]);
            assert(u@.subrange(0, 6)[3] == u@[3]);
            assert(u@.subrange(0, 6)[4] == u@[4]);
            assert(u@.subrange(0, 6)[5] == u@[5]);
        }
    }
    r
}

/// How a result column is read.
#[derive(Debug, Clone, Copy, PartialEq, Eq, Structural)]
pub enum ColumnKind {
    Integer,
    Real,
    Boolean,
    Null,
    Text,
}

/// How a column of the given database type is read.
pub open spec fn column_kind_of(driver: SqlDriver, column_type: Seq<char>) -> ColumnKind {
    match driver {
        SqlDriver::Sqlite => if column_type == "INTEGER"@ {
            ColumnKind::Integer
        } else if column_type == "REAL"@ {
            ColumnKind::Real
        } else if column_type == "BOOLEAN"@ {
            ColumnKind::Boolean
        } else if column_type == "NULL"@ {
            ColumnKind::Null
        } else {
            ColumnKind::Text
        },
        SqlDriver::Postgres => if column_type == "INT2"@ || column_type == "INT4"@ || column_type == "INT8"@ {
            ColumnKind::Integer
        } else if column_type == "FLOAT4"@ || column_type == "FLOAT8"@ {
            ColumnKind::Real
        } else if column_type == "BOOL"@ {
            ColumnKind::Boolean
        } else {
            ColumnKind::Text
        },
    }
}

pub fn column_kind(driver: SqlDriver, column_type: &str) -> (r: ColumnKind)
    ensures
        r == column_kind_of(driver, column_type@),
{
    match driver {
        SqlDriver::Sqlite => if str_eq(column_type, "INTEGER") {
            ColumnKind::Integer
        } else if str_eq(column_type, "REAL") {
            ColumnKind::Real
        } else if str_eq(column_type, "BOOLEAN") {
            ColumnKind::Boolean
        } else if str_eq(column_type, "NULL") {
            ColumnKind::Null
        } else {
            ColumnKind::Text
        },
        SqlDriver::Postgres => if str_eq(column_type, "INT2") || str_eq(column_type, "INT4") || str_eq(column_type, "INT8") {
            ColumnKind::Integer
        } else if str_eq(column_type, "FLOAT4") || str_eq(column_type, "FLOAT8") {
            ColumnKind::Real
        } else if str_eq(column_type, "BOOL") {
            ColumnKind::Boolean
        } else {
            ColumnKind::Text
        },
    }
}

/// The JSON `{"rows_affected": n}` a statement reports.
pub open spec fn affected_view(n: u64) -> JsonView {
    JsonView::Object(seq![("rows_affected"@, JsonView::Number(decimal(n as nat)))])
}

/// The result of a statement that changed `affected` rows.
pub fn affected_result(affected: u64) -> (r: ToolResult)
    ensures
        r.structured matches Some(v) && v@ == affected_view(affected),
        r.stdout@ == json_text(affected_view(affected)),
        r.stderr@ == Seq::<char>::empty(),
        r.exit_code == Some(0i32),
        !r.is_error,
{
    let mut fields: Vec<(String, JsonValue)> = Vec::new();
    fields.push((String::from_str("rows_affected"), JsonValue::Number(u64_to_decimal(affected))));
    proof {
        assert(fields@.drop_last() =~= Seq::<(String, JsonValue)>::empty());
        assert(view_json_fields(fields@.drop_last()) =~= Seq::<(Seq<char>, JsonView)>::empty());
        assert(view_json(fields@.last().1) == JsonView::Number(decimal(affected as nat)));
        assert(view_json_fields(fields@) == view_json_fields(fields@.drop_last()).push(
            (fields@.last().0@, view_json(fields@.last().1)),
        ));
        assert(view_json_fields(fields@) =~= seq![("rows_affected"@, JsonView::Number(decimal(affected as nat)))]);
    }
    let v = JsonValue::Object(fields);
    let stdout = json_to_string(&v);
    ToolResult { stdout, stderr: String::new(), exit_code: Some(0), is_error: false, structured: Some(v) }
}

/// The result of a query that returned `rows` (each an object of columns).
pub fn select_result(rows: Vec<JsonValue>) -> (r: ToolResult)
    ensures
        r.structured matches Some(v) && v@ == JsonView::Array(view_json_seq(rows@)),
        r.stdout@ == json_pretty_text(JsonView::Array(view_json_seq(rows@))),
        r.stderr@ == Seq::<char>::empty(),
        r.exit_code == Some(0i32),
        !r.is_error,
{
    let v = JsonValue::Array(rows);
    let stdout = json_to_pretty_string(&v);
    ToolResult { stdout, stderr: String::new(), exit_code: Some(0), is_error: false, structured: Some(v) }
}

/// A value as it is bound to a statement parameter.
#[derive(Debug)]
pub enum SqlBind {
    Text(String),
    Bool(bool),
    Int(i64),
    /// A number that is not an integer: its JSON text, bound as a float.
    Float(String),
    Null,
}

/// The integer a JSON number is bound as: one in `i64` range as itself, a
/// larger one up to `u64::MAX` wrapped into `i64`; any other number is bound
/// as a float.
pub open spec fn number_int(t: Seq<char>) -> Option<i64> {
    if t.len() > 0 && t[0] == '-' && all_digits(t.drop_first()) && digits_value(t.drop_first()) <= 0x8000_0000_0000_0000 {
        Some((-digits_value(t.drop_first())) as i64)
    } else if all_digits(t) && digits_value(t) <= u64::MAX {
        Some(digits_value(t) as i64)
    } else {
        None
    }
}

/// The parameter for one bound value; arrays and objects cannot be bound.
pub fn bind_value(v: &JsonValue) -> (r: Result<SqlBind, String>)
    ensures
        match v@ {
            JsonView::Str(s) => r matches Ok(SqlBind::Text(x)) && x@ == s,
            JsonView::Bool(b) => r matches Ok(SqlBind::Bool(x)) && x == b,
            JsonView::Null => r matches Ok(SqlBind::Null),
            JsonView::Number(t) => match number_int(t) {
                Some(n) => r matches Ok(SqlBind::Int(x)) && x == n,
                None => r matches Ok(SqlBind::Float(x)) && x@ == t,
            },
            _ => r matches Err(m) && m@ == "cannot bind non-scalar value: "@ + json_text(v@),
        },
{
    match v {
        JsonValue::Str(s) => Ok(SqlBind::Text(s.clone())),
        JsonValue::Bool(b) => Ok(SqlBind::Bool(*b)),
        JsonValue::Null => Ok(SqlBind::Null),
        JsonValue::Number(t) => {
            let d = chars_of(t.as_str());
            proof {
                assert(d@.skip(0) =~= d@);
                if d@.len() > 0 {
                    assert(d@.skip(1) =~= d@.drop_first());
                }
            }
            if d.len() > 0 && d[0] == '-' {
                if let Some(n) = digits_up_to(&d, 1, 0x8000_0000_0000_0000) {
                    let x: i64 = if n == 0x8000_0000_0000_0000 {
                        i64::MIN
                    } else {
                        -(n as i64)
                    };
                    return Ok(SqlBind::Int(x));
                }
            } else if let Some(n) = digits_up_to(&d, 0, u64::MAX) {
                let x: i64 = #[verifier::truncate] (n as i64);
                return Ok(SqlBind::Int(x));
            }
            Ok(SqlBind::Float(t.clone()))
        },
        _ => {
            let text = json_to_string(v);
            Err(cat2("cannot bind non-scalar value: ", text.as_str()))
        },
    }
}

proof fn lemma_bound_values_scalar(
    t: Seq<char>,
    i: int,
    vars: Seq<(Seq<char>, JsonView)>,
    driver: SqlDriver,
    count: nat,
)
    ensures
        bound_from(t, i, vars, driver, count) matches Ok((_, vals)) ==> forall|j: int|
            0 <= j < vals.len() ==> !is_compound(#[trigger] vals[j]),
    decreases t.len() - i,
{
    if 0 <= i < t.len() {
        if opens_at(t, i) {
            match close_at(t, i + 2) {
                None => {},
                Some(k) => {
                    lemma_close_at_bounds(t, i + 2);
                    if i + 2 <= k && k + 2 <= t.len() {
                        lemma_bound_values_scalar(t, k + 2, vars, driver, count);
                        lemma_bound_values_scalar(t, k + 2, vars, driver, count + 1);
                    }
                },
            }
        } else {
            lemma_bound_values_scalar(t, i + 1, vars, driver, count);
        }
    }
}

/// Every value a statement binds is a scalar: an array or an object is never
/// bound, it is refused.
pub proof fn law_bound_values_are_scalar(t: Seq<char>, vars: Seq<(Seq<char>, JsonView)>, driver: SqlDriver)
    ensures
        bound_spec(t, vars, driver) matches Ok((_, vals)) ==> forall|j: int|
            0 <= j < vals.len() ==> !is_compound(#[trigger] vals[j]),
{
    lemma_bound_values_scalar(t, 0, vars, driver, 0);
}

proof fn lemma_plain_bound(t: Seq<char>, i: int, vars: Seq<(Seq<char>, JsonView)>, driver: SqlDriver, count: nat)
    requires
        0 <= i <= t.len(),
        forall|j: int| !opens_at(t, j),
    ensures
        bound_from(t, i, vars, driver, count) == Ok::<(Seq<char>, Seq<JsonView>), SqlFailure>(
            (t.subrange(i, t.len() as int), Seq::empty()),
        ),
    decreases t.len() - i,
{
    if i < t.len() {
        lemma_plain_bound(t, i + 1, vars, driver, count);
        assert(!opens_at(t, i));
        assert(seq![t[i]] + t.subrange(i + 1, t.len() as int) =~= t.subrange(i, t.len() as int));
        assert(Seq::<JsonView>::empty() + Seq::<JsonView>::empty() =~= Seq::<JsonView>::empty());
    } else {
        assert(t.subrange(i, t.len() as int) =~= Seq::<char>::empty());
    }
}

/// A query with no placeholder is run as written, with nothing bound.
pub proof fn law_plain_query_is_unchanged(t: Seq<char>, vars: Seq<(Seq<char>, JsonView)>, driver: SqlDriver)
    requires
        forall|j: int| !opens_at(t, j),
    ensures
        bound_spec(t, vars, driver) == Ok::<(Seq<char>, Seq<JsonView>), SqlFailure>((t, Seq::empty())),
{
    lemma_plain_bound(t, 0, vars, driver, 0);
    assert(t.subrange(0, t.len() as int) =~= t);
}

} // verus!
