//! The exec adapter's decisions: the command line to run for a call. Running
//! it is the caller's part.
use crate::config::model::{view_opt_string, view_pairs, view_strings, StrMap, ToolConfig};
use crate::config::copy::{copy_opt_string, copy_pairs};
use crate::adapters::ToolResult;
use crate::json::{JsonValue, JsonView};
use crate::template::render::{
    merge_vars, object_fields, render_error_text, render_spec, render_template, string_vars, RenderError,
    RenderFailure, Vars,
};
use crate::text::cat3;
use vstd::prelude::*;
use vstd::string::*;

verus! {

/// Templates rendered in order; the first failure counts.
pub open spec fn rendered_list(s: Seq<String>, vars: Seq<(Seq<char>, JsonView)>) -> Result<Seq<Seq<char>>, RenderFailure>
    decreases s.len(),
{
    if s.len() == 0 {
        Ok(Seq::empty())
    } else {
        match rendered_list(s.drop_last(), vars) {
            Err(e) => Err(e),
            Ok(prev) => match render_spec(s.last()@, vars) {
                Err(e) => Err(e),
                Ok(v) => Ok(prev.push(v)),
            },
        }
    }
}

proof fn lemma_rendered_list_err(s: Seq<String>, n: int, e: RenderFailure, vars: Seq<(Seq<char>, JsonView)>)
    requires
        0 <= n <= s.len(),
        rendered_list(s.take(n), vars) == Err::<Seq<Seq<char>>, RenderFailure>(e),
    ensures
        rendered_list(s, vars) == Err::<Seq<Seq<char>>, RenderFailure>(e),
    decreases s.len() - n,
{
    if n < s.len() {
        assert(s.take(n + 1).drop_last() =~= s.take(n));
        lemma_rendered_list_err(s, n + 1, e, vars);
    } else {
        assert(s.take(n) =~= s);
    }
}

/// Each argument a command gets is its template rendered against the call's
/// variables, in the same order; rendering the arguments succeeds exactly
/// when every template renders.
pub proof fn law_arguments_are_rendered(s: Seq<String>, vars: Seq<(Seq<char>, JsonView)>)
    ensures
        rendered_list(s, vars) is Ok <==> forall|i: int| 0 <= i < s.len() ==> #[trigger] render_spec(s[i]@, vars) is Ok,
        rendered_list(s, vars) matches Ok(r) ==> r.len() == s.len() && forall|i: int|
            0 <= i < s.len() ==> render_spec(s[i]@, vars) == Ok::<Seq<char>, RenderFailure>(#[trigger] r[i]),
    decreases s.len(),
{
    if s.len() > 0 {
        let rest = s.drop_last();
        law_arguments_are_rendered(rest, vars);
        assert forall|i: int| 0 <= i < rest.len() implies rest[i] == s[i] by {}
        if !(rendered_list(s, vars) is Ok) {
            if rendered_list(rest, vars) is Ok {
                assert(!(render_spec(s[s.len() - 1]@, vars) is Ok));
            } else {
                let i = choose|i: int| 0 <= i < rest.len() && !(#[trigger] render_spec(rest[i]@, vars) is Ok);
                assert(!(render_spec(s[i]@, vars) is Ok));
            }
        }
    }
}

/// Renders each argument template.
pub fn render_args(args: &Vec<String>, vars: &Vars) -> (r: Result<Vec<String>, RenderError>)
    ensures
        match r {
            Ok(v) => rendered_list(args@, vars@) == Ok::<Seq<Seq<char>>, RenderFailure>(view_strings(v@)),
            Err(e) => rendered_list(args@, vars@) == Err::<Seq<Seq<char>>, RenderFailure>(e@),
        },
{
    let mut out: Vec<String> = Vec::new();
    let mut i: usize = 0;
    proof {
        assert(view_strings(out@) =~= Seq::<Seq<char>>::empty());
        assert(args@.take(0).len() == 0);
    }
    while i < args.len()
        invariant
            i <= args@.len(),
            rendered_list(args@.take(i as int), vars@) == Ok::<Seq<Seq<char>>, RenderFailure>(view_strings(out@)),
        decreases args@.len() - i,
    {
        proof {
            assert(args@.take(i + 1).drop_last() =~= args@.take(i as int));
        }
        match render_template(args[i].as_str(), vars) {
            Ok(v) => {
                let ghost prev = out@;
                out.push(v);
                proof {
                    let t = args@.take(i + 1);
                    assert(t.last() == args@[i as int]);
                    assert(out@.drop_last() == prev);
                    assert(view_strings(out@) =~= view_strings(prev).push(v@));
                }
            },
            Err(e) => {
                proof {
                    let t = args@.take(i + 1);
                    assert(t.last() == args@[i as int]);
                    assert(rendered_list(t, vars@) == Err::<Seq<Seq<char>>, RenderFailure>(e@));
                    lemma_rendered_list_err(args@, i + 1, e@, vars@);
                }
                return Err(e);
            },
        }
        i = i + 1;
    }
    proof {
        assert(args@.take(args@.len() as int) =~= args@);
    }
    Ok(out)
}

/// A command line ready to run.
pub struct ExecPlan {
    pub command: String,
    pub args: Vec<String>,
    pub cwd: Option<String>,
    pub env: StrMap,
    pub timeout_ms: u64,
}

/// The command line an exec tool runs for a call with `input`: the command is
/// required and taken as it is (no shell); each argument is rendered against
/// the input and then the config variables.
pub fn plan_exec(tool: &ToolConfig, input: &JsonValue, config_vars: &StrMap) -> (r: Result<ExecPlan, String>)
    ensures
        match tool.command {
            None => r matches Err(m) && m@ == "exec tool missing 'command'"@,
            Some(c) => {
                let vars = object_fields(input@) + string_vars(config_vars@);
                match rendered_list(tool.args@, vars) {
                    Err(e) => r matches Err(m) && m@ == render_error_text(e),
                    Ok(args) => r matches Ok(p) && p.command@ == c@ && view_strings(p.args@) == args
                        && view_opt_string(p.cwd) == view_opt_string(tool.cwd) && view_pairs(p.env@) == view_pairs(
                        tool.env@,
                    ) && p.timeout_ms == tool.timeout_ms,
                }
            },
        },
{
    let command = match &tool.command {
        Some(c) => c.clone(),
        None => return Err(String::from_str("exec tool missing 'command'")),
    };
    let vars = merge_vars(input, config_vars);
    let args = match render_args(&tool.args, &vars) {
        Ok(a) => a,
        Err(e) => return Err(e.to_string()),
    };
    Ok(
        ExecPlan {
            command,
            args,
            cwd: copy_opt_string(&tool.cwd),
            env: copy_pairs(&tool.env),
            timeout_ms: tool.timeout_ms,
        },
    )
}

/// The result of a command that ran: its output as it is, its exit code, and
/// a failure exactly when the command did not succeed.
pub fn exec_result(success: bool, code: Option<i32>, stdout: String, stderr: String) -> (r: ToolResult)
    ensures
        r.is_error == !success,
        r.exit_code == code,
        r.stdout == stdout,
        r.stderr == stderr,
        r.structured is None,
{
    ToolResult { stdout, stderr, exit_code: code, is_error: !success, structured: None }
}

/// The error of a command that could not be run.
pub fn run_failure_message(tool_name: &str, command: &str) -> (r: String)
    ensures
        r@ == "exec tool '"@ + tool_name@ + "': running "@ + command@,
{
    let mut s = cat3("exec tool '", tool_name, "': running ");
    s.append(command);
    s
}

} // verus!
