//! What the commands print and decide; the files, processes and signals they
//! touch are the caller's part.
use crate::config::model::{HealthcheckType, ServiceConfig, ToolConfig, ToolType, view_strings};
use crate::config::validate::ValidationWarning;
use crate::config::diff::{join, joined};
use crate::mcp::server::{availability_text, availability_to_string};
use crate::runtime::registry::ToolEntry;
use crate::text::{all_digits, cat2, cat3, decimal, digits_up_to, digits_value, trim, trim_str, u64_to_decimal};
use vstd::prelude::*;
use vstd::string::*;

verus! {

/// The config `init` writes.
pub const INIT_TEMPLATE: &'static str = "server:\n  name: my-project\n  transport: stdio\n  log_level: info\n\ntools:\n  - name: hello\n    type: exec\n    description: Say hello\n    command: echo\n    args: [\"Hello from mcpify!\"]\n    timeout_ms: 5000\n    input:\n      type: object\n      properties: {}\n      required: []\n";

/// Where a running server keeps its pid.
pub const PID_DIR: &'static str = ".mcpify";

pub const PID_FILE: &'static str = ".mcpify/mcpify.pid";

/// `n` spaces.
pub open spec fn spaces(n: nat) -> Seq<char> {
    Seq::new(n, |i: int| ' ')
}

/// `s` left-aligned in a field of `width` characters (`{:<width}`); a longer
/// text is kept whole.
pub open spec fn padded(s: Seq<char>, width: nat) -> Seq<char> {
    if s.len() < width {
        s + spaces((width - s.len()) as nat)
    } else {
        s
    }
}

pub fn pad(s: &str, width: usize) -> (r: String)
    ensures
        r@ == padded(s@, width as nat),
{
    let mut r = String::from_str(s);
    let n = s.unicode_len();
    if n < width {
        let mut k: usize = n;
        while k < width
            invariant
                n <= k <= width,
                n == s@.len(),
                r@ == s@ + spaces((k - n) as nat),
            decreases width - k,
        {
            r.append(" ");
            proof {
                reveal_strlit(" ");
                assert(r@ =~= s@ + spaces((k + 1 - n) as nat));
            }
            k = k + 1;
        }
    }
    r
}

/// `c` repeated `n` times.
pub fn rule(n: usize) -> (r: String)
    ensures
        r@ == Seq::new(n as nat, |i: int| '-'),
{
    let mut r = String::new();
    let mut k: usize = 0;
    while k < n
        invariant
            k <= n,
            r@ == Seq::new(k as nat, |i: int| '-'),
        decreases n - k,
    {
        r.append("-");
        proof {
            reveal_strlit("-");
            assert(r@ =~= Seq::new((k + 1) as nat, |i: int| '-'));
        }
        k = k + 1;
    }
    r
}

pub open spec fn type_name_of(t: ToolType) -> Seq<char> {
    match t {
        ToolType::Exec => "exec"@,
        ToolType::Http => "http"@,
        ToolType::Sql => "sql"@,
        ToolType::Pipeline => "pipeline"@,
    }
}

pub fn tool_type_name(t: ToolType) -> (r: &'static str)
    ensures
        r@ == type_name_of(t),
{
    match t {
        ToolType::Exec => "exec",
        ToolType::Http => "http",
        ToolType::Sql => "sql",
        ToolType::Pipeline => "pipeline",
    }
}

/// What `validate` reports of a valid config.
pub fn validate_summary(tools: usize, services: usize) -> (r: String)
    ensures
        r@ == "Config is valid ("@ + decimal(tools as nat) + " tools, "@ + decimal(services as nat) + " services)"@,
{
    let t = u64_to_decimal(tools as u64);
    let s = u64_to_decimal(services as u64);
    let mut r = cat3("Config is valid (", t.as_str(), " tools, ");
    r.append(s.as_str());
    r.append(" services)");
    r
}

pub fn warning_line(w: &ValidationWarning) -> (r: String)
    ensures
        r@ == "warning: "@ + w.message@,
{
    cat2("warning: ", w.message.as_str())
}

/// The header of the `list` table.
pub fn list_header() -> (r: String)
    ensures
        r@ == padded("NAME"@, 20) + " "@ + padded("TYPE"@, 6) + " "@ + padded("DESCRIPTION"@, 40) + " TIMEOUT"@,
{
    let a = pad("NAME", 20);
    let b = pad("TYPE", 6);
    let c = pad("DESCRIPTION", 40);
    let mut r = cat3(a.as_str(), " ", b.as_str());
    r.append(" ");
    r.append(c.as_str());
    r.append(" TIMEOUT");
    r
}

/// One row of the `list` table: name, type, description and timeout.
pub fn list_row(t: &ToolConfig) -> (r: String)
    ensures
        r@ == padded(t.name@, 20) + " "@ + padded(type_name_of(t.tool_type), 6) + " "@ + padded(t.description@, 40)
            + " "@ + decimal(t.timeout_ms as nat) + "ms"@,
{
    let a = pad(t.name.as_str(), 20);
    let b = pad(tool_type_name(t.tool_type), 6);
    let c = pad(t.description.as_str(), 40);
    let d = u64_to_decimal(t.timeout_ms);
    let mut r = cat3(a.as_str(), " ", b.as_str());
    r.append(" ");
    r.append(c.as_str());
    r.append(" ");
    r.append(d.as_str());
    r.append("ms");
    r
}

/// The header of the tools table of `status`.
pub fn status_tools_header() -> (r: String)
    ensures
        r@ == padded("NAME"@, 20) + " "@ + padded("TYPE"@, 6) + " "@ + padded("STATUS"@, 12) + " DEPENDS_ON"@,
{
    let a = pad("NAME", 20);
    let b = pad("TYPE", 6);
    let c = pad("STATUS", 12);
    let mut r = cat3(a.as_str(), " ", b.as_str());
    r.append(" ");
    r.append(c.as_str());
    r.append(" DEPENDS_ON");
    r
}

/// The dependencies column: `-` for none, else the names joined by `, `.
pub open spec fn deps_text(deps: Seq<String>) -> Seq<char> {
    if deps.len() == 0 {
        "-"@
    } else {
        joined(view_strings(deps), ", "@)
    }
}

/// One row of the tools table of `status`: name, type, availability and
/// dependencies.
pub fn status_tool_row(entry: &ToolEntry) -> (r: String)
    ensures
        r@ == padded(entry.config.name@, 20) + " "@ + padded(type_name_of(entry.config.tool_type), 6) + " "@ + padded(
            availability_text(entry.availability),
            12,
        ) + " "@ + deps_text(entry.config.depends_on@),
{
    let t = &entry.config;
    let a = pad(t.name.as_str(), 20);
    let b = pad(tool_type_name(t.tool_type), 6);
    let status = availability_to_string(&entry.availability);
    let c = pad(status.as_str(), 12);
    let deps = if t.depends_on.len() == 0 {
        String::from_str("-")
    } else {
        join(&t.depends_on, ", ")
    };
    let mut r = cat3(a.as_str(), " ", b.as_str());
    r.append(" ");
    r.append(c.as_str());
    r.append(" ");
    r.append(deps.as_str());
    r
}

/// The header of the services table of `status`.
pub fn status_services_header() -> (r: String)
    ensures
        r@ == padded("NAME"@, 20) + " "@ + padded("COMMAND"@, 30) + " "@ + padded("AUTOSTART"@, 10) + " HEALTHCHECK"@,
{
    let a = pad("NAME", 20);
    let b = pad("COMMAND", 30);
    let c = pad("AUTOSTART", 10);
    let mut r = cat3(a.as_str(), " ", b.as_str());
    r.append(" ");
    r.append(c.as_str());
    r.append(" HEALTHCHECK");
    r
}

pub open spec fn healthcheck_text(s: ServiceConfig) -> Seq<char> {
    match s.healthcheck {
        Some(h) => match h.check_type {
            HealthcheckType::Http => "Http"@,
            HealthcheckType::Process => "Process"@,
        },
        None => "process"@,
    }
}

/// One row of the services table of `status`: name, command line, whether
/// it starts with the server, and its health check.
pub fn status_service_row(s: &ServiceConfig) -> (r: String)
    ensures
        r@ == padded(s.name@, 20) + " "@ + padded(s.command@ + " "@ + joined(view_strings(s.args@), " "@), 30) + " "@
            + padded(if s.autostart { "true"@ } else { "false"@ }, 10) + " "@ + healthcheck_text(*s),
{
    let a = pad(s.name.as_str(), 20);
    let args = join(&s.args, " ");
    let cmd = cat3(s.command.as_str(), " ", args.as_str());
    let b = pad(cmd.as_str(), 30);
    let c = pad(if s.autostart { "true" } else { "false" }, 10);
    let hc = match &s.healthcheck {
        Some(h) => match h.check_type {
            HealthcheckType::Http => "Http",
            HealthcheckType::Process => "Process",
        },
        None => "process",
    };
    let mut r = cat3(a.as_str(), " ", b.as_str());
    r.append(" ");
    r.append(c.as_str());
    r.append(" ");
    r.append(hc);
    r
}

/// What `str::parse::<i32>` makes of a text: an optional sign, then at
/// least one digit, all in range.
pub open spec fn parsed_i32(s: Seq<char>) -> Option<i32> {
    if s.len() > 0 && s[0] == '-' && all_digits(s.drop_first()) {
        let v = -digits_value(s.drop_first());
        if i32::MIN <= v { Some(v as i32) } else { None }
    } else if s.len() > 0 && s[0] == '+' && all_digits(s.drop_first()) {
        let v = digits_value(s.drop_first());
        if v <= i32::MAX { Some(v as i32) } else { None }
    } else if all_digits(s) {
        let v = digits_value(s);
        if v <= i32::MAX { Some(v as i32) } else { None }
    } else {
        None
    }
}

/// `text.trim().parse::<i32>()`, as the pid file is read.
pub fn parse_pid(text: &str) -> (r: Option<i32>)
    ensures
        r == parsed_i32(trim(text@)),
{
    let t = trim_str(text);
    let d = crate::text::chars_of(t.as_str());
    if d.len() == 0 {
        return None;
    }
    let first = d[0];
    proof {
        assert(d@.skip(0) =~= d@);
        assert(d@.skip(1) =~= d@.drop_first());
    }
    if first == '-' {
        match digits_up_to(&d, 1, 2147483648) {
            Some(v) => {
                let r: i64 = -(v as i64);
                Some(r as i32)
            },
            None => None,
        }
    } else if first == '+' {
        match digits_up_to(&d, 1, 2147483647) {
            Some(v) => Some(v as i32),
            None => None,
        }
    } else {
        match digits_up_to(&d, 0, 2147483647) {
            Some(v) => Some(v as i32),
            None => None,
        }
    }
}

/// The exit code `run` ends with: a failing tool's exit code, or 1 when it
/// has none; nothing for a tool that did not fail.
pub fn run_exit_code(is_error: bool, exit_code: Option<i32>) -> (r: Option<i32>)
    ensures
        !is_error ==> r is None,
        is_error ==> r == Some(
            match exit_code {
                Some(c) => c,
                None => 1i32,
            },
        ),
{
    if is_error {
        match exit_code {
            Some(c) => Some(c),
            None => Some(1),
        }
    } else {
        None
    }
}

} // verus!
