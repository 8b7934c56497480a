//! The decisions of a pipeline tool: which tool each step runs, what input
//! it gets, and what its outcome means for the steps after it. The steps are
//! run by the caller, one after another; the pipeline's result is the last
//! step's.
use crate::adapters::ToolResult;
use crate::config::copy::copy_tool;
use crate::config::model::{same_tool, view_opt_string, PipelineStep, StrMap, ToolConfig, ToolType};
use crate::json::{json_from_str, json_parse, view_json, view_json_fields, JsonValue, JsonView};
use crate::runtime::registry::ToolRegistry;
use crate::template::render::{
    json_to_vars, lookup, lookup_at, merge_vars, object_fields, render_spec, render_template, string_vars,
    RenderFailure, Vars,
};
use crate::config::copy::copy_json_fields;
use crate::text::{cat2, cat3, cat5};
use vstd::prelude::*;
use vstd::string::*;

verus! {

pub fn check_pipeline(config: &ToolConfig) -> (r: Result<(), String>)
    ensures
        config.steps@.len() == 0 ==> (r matches Err(m) && m@ == "pipeline '"@ + config.name@ + "' has no steps"@),
        config.steps@.len() > 0 ==> r is Ok,
{
    if config.steps.len() == 0 {
        Err(cat3("pipeline '", config.name.as_str(), "' has no steps"))
    } else {
        Ok(())
    }
}

/// The tool a step runs: it must exist and must not be a pipeline itself.
pub fn step_tool(pipeline: &ToolConfig, step: &PipelineStep, registry: &ToolRegistry) -> (r: Result<ToolConfig, String>)
    ensures
        !registry@.contains_key(step.tool@) ==> (r matches Err(m) && m@ == "pipeline '"@ + pipeline.name@
            + "': step references unknown tool '"@ + step.tool@ + "'"@),
        registry@.contains_key(step.tool@) && registry@[step.tool@].config.tool_type == ToolType::Pipeline ==> (r matches Err(
            m,
        ) && m@ == "pipeline '"@ + pipeline.name@ + "': step '"@ + step.tool@
            + "' references another pipeline (nesting is not supported)"@),
        registry@.contains_key(step.tool@) && registry@[step.tool@].config.tool_type != ToolType::Pipeline ==> (r matches Ok(
            c,
        ) && same_tool(c, registry@[step.tool@].config)),
{
    match registry.get(step.tool.as_str()) {
        None => {
            let mut m = cat5("pipeline '", pipeline.name.as_str(), "': step references unknown tool '", step.tool.as_str(), "'");
            Err(m)
        },
        Some(e) => {
            if e.config.tool_type == ToolType::Pipeline {
                Err(
                    cat5(
                        "pipeline '",
                        pipeline.name.as_str(),
                        "': step '",
                        step.tool.as_str(),
                        "' references another pipeline (nesting is not supported)",
                    ),
                )
            } else {
                Ok(copy_tool(&e.config))
            }
        },
    }
}

/// The variables a step's input templates see: the outputs of the steps
/// before it under `steps`, then the pipeline's input, then the config
/// variables; an earlier source shadows a later one.
pub fn step_context(steps_out: &Vec<(String, JsonValue)>, input: &JsonValue, config_vars: &StrMap) -> (r: Vars)
    ensures
        r@ == seq![("steps"@, JsonView::Object(view_json_fields(steps_out@)))] + object_fields(input@) + string_vars(
            config_vars@,
        ),
{
    let rest = merge_vars(input, config_vars);
    let mut entries: Vec<(String, JsonValue)> = Vec::new();
    let steps = JsonValue::Object(copy_json_fields(steps_out));
    let k = String::from_str("steps");
    let ghost pair = (k, steps);
    entries.push((k, steps));
    let mut i: usize = 0;
    proof {
        assert(entries@.drop_last() =~= Seq::<(String, JsonValue)>::empty());
        assert(view_json_fields(entries@.drop_last()) =~= Seq::<(Seq<char>, JsonView)>::empty());
        assert(entries@.last() == pair);
        assert(view_json(pair.1) == JsonView::Object(view_json_fields(steps_out@)));
        assert(view_json_fields(entries@) =~= seq![("steps"@, JsonView::Object(view_json_fields(steps_out@)))]);
        crate::template::render::lemma_view_fields_len(rest.entries@);
    }
    while i < rest.entries.len()
        invariant
            i <= rest.entries@.len(),
            view_json_fields(rest.entries@).len() == rest.entries@.len(),
            view_json_fields(entries@) == seq![("steps"@, JsonView::Object(view_json_fields(steps_out@)))]
                + view_json_fields(rest.entries@).take(i as int),
        decreases rest.entries@.len() - i,
    {
        let key = rest.entries[i].0.clone();
        let val = rest.entries[i].1.duplicate();
        let ghost prev = entries@;
        entries.push((key, val));
        proof {
            assert(entries@.drop_last() =~= prev);
            crate::template::render::lemma_view_fields_index(rest.entries@, i as int);
            assert(view_json_fields(rest.entries@).take(i + 1) =~= view_json_fields(rest.entries@).take(i as int).push(
                view_json_fields(rest.entries@)[i as int],
            ));
        }
        i = i + 1;
    }
    proof {
        assert(view_json_fields(rest.entries@).take(rest.entries@.len() as int) =~= view_json_fields(rest.entries@));
    }
    Vars { entries }
}

/// A step's input mapping rendered in order: the rendered members, or the
/// key whose template failed first.
pub open spec fn rendered_input(m: Seq<(String, String)>, vars: Seq<(Seq<char>, JsonView)>) -> Result<
    Seq<(Seq<char>, JsonView)>,
    Seq<char>,
>
    decreases m.len(),
{
    if m.len() == 0 {
        Ok(Seq::empty())
    } else {
        match rendered_input(m.drop_last(), vars) {
            Err(k) => Err(k),
            Ok(prev) => match render_spec(m.last().1@, vars) {
                Err(_) => Err(m.last().0@),
                Ok(v) => Ok(prev.push((m.last().0@, JsonView::Str(v)))),
            },
        }
    }
}

proof fn lemma_rendered_input_err(m: Seq<(String, String)>, n: int, k: Seq<char>, vars: Seq<(Seq<char>, JsonView)>)
    requires
        0 <= n <= m.len(),
        rendered_input(m.take(n), vars) == Err::<Seq<(Seq<char>, JsonView)>, Seq<char>>(k),
    ensures
        rendered_input(m, vars) == Err::<Seq<(Seq<char>, JsonView)>, Seq<char>>(k),
    decreases m.len() - n,
{
    if n < m.len() {
        assert(m.take(n + 1).drop_last() =~= m.take(n));
        lemma_rendered_input_err(m, n + 1, k, vars);
    } else {
        assert(m.take(n) =~= m);
    }
}

/// The input a step gets: with no mapping, the pipeline's input as it is;
/// otherwise an object of the mapping's keys, each with its template
/// rendered against `ctx`.
pub fn step_input(pipeline_name: &str, step: &PipelineStep, input: &JsonValue, ctx: &Vars) -> (r: Result<JsonValue, String>)
    ensures
        step.input@.len() == 0 ==> (r matches Ok(v) && v@ == input@),
        step.input@.len() > 0 ==> match rendered_input(step.input@, ctx@) {
            Ok(members) => r matches Ok(v) && v@ == JsonView::Object(members),
            Err(k) => r matches Err(m) && m@ == "pipeline '"@ + pipeline_name@ + "': rendering step '"@ + step.tool@
                + "' input '"@ + k + "'"@,
        },
{
    if step.input.len() == 0 {
        return Ok(input.duplicate());
    }
    let m = &step.input;
    let mut out: Vec<(String, JsonValue)> = Vec::new();
    let mut i: usize = 0;
    proof {
        assert(view_json_fields(out@) =~= Seq::<(Seq<char>, JsonView)>::empty());
        assert(m@.take(0).len() == 0);
    }
    while i < m.len()
        invariant
            i <= m@.len(),
            *m == step.input,
            rendered_input(m@.take(i as int), ctx@) == Ok::<Seq<(Seq<char>, JsonView)>, Seq<char>>(
                view_json_fields(out@),
            ),
        decreases m@.len() - i,
    {
        proof {
            assert(m@.take(i + 1).drop_last() =~= m@.take(i as int));
            assert(m@.take(i + 1).last() == m@[i as int]);
        }
        match render_template(m[i].1.as_str(), ctx) {
            Ok(v) => {
                let k = m[i].0.clone();
                let ghost prev = out@;
                let val = JsonValue::Str(v);
                out.push((k, val));
                proof {
                    assert(out@.drop_last() == prev);
                    assert(view_json_fields(out@) == view_json_fields(prev).push((k@, view_json(val))));
                }
            },
            Err(_) => {
                proof {
                    lemma_rendered_input_err(m@, i + 1, m@[i as int].0@, ctx@);
                }
                let mut msg = cat5("pipeline '", pipeline_name, "': rendering step '", step.tool.as_str(), "' input '");
                msg.append(m[i].0.as_str());
                msg.append("'");
                return Err(msg);
            },
        }
        i = i + 1;
    }
    proof {
        assert(m@.take(m@.len() as int) =~= m@);
    }
    Ok(JsonValue::Object(out))
}

/// The value a step shows the steps after it: its structured content, else
/// its stdout parsed as JSON, else its stdout as a string.
pub open spec fn output_value(structured: Option<JsonView>, stdout: Seq<char>) -> JsonView {
    match structured {
        Some(v) => v,
        None => match json_parse(stdout) {
            Some(v) => v,
            None => JsonView::Str(stdout),
        },
    }
}

pub fn step_output_value(result: &ToolResult) -> (r: JsonValue)
    ensures
        r@ == output_value(
            match result.structured {
                Some(v) => Some(v@),
                None => None,
            },
            result.stdout@,
        ),
{
    if let Some(s) = &result.structured {
        return s.duplicate();
    }
    match json_from_str(result.stdout.as_str()) {
        Some(v) => v,
        None => JsonValue::Str(result.stdout.clone()),
    }
}

/// Index of the first member named `k` at or after `i`.
pub open spec fn member_index(fields: Seq<(Seq<char>, JsonView)>, k: Seq<char>, i: int) -> Option<int>
    decreases fields.len() - i,
{
    if i < 0 || i >= fields.len() {
        None
    } else if fields[i].0 == k {
        Some(i)
    } else {
        member_index(fields, k, i + 1)
    }
}

/// The members with `k` set to `v`: in place when `k` is there, else at the
/// end.
pub open spec fn set_member(fields: Seq<(Seq<char>, JsonView)>, k: Seq<char>, v: JsonView) -> Seq<(Seq<char>, JsonView)> {
    match member_index(fields, k, 0) {
        Some(i) => fields.update(i, (k, v)),
        None => fields.push((k, v)),
    }
}

proof fn lemma_member_index(fields: Seq<(Seq<char>, JsonView)>, k: Seq<char>, i: int)
    requires
        0 <= i,
    ensures
        member_index(fields, k, i) matches Some(j) ==> i <= j < fields.len() && fields[j].0 == k && forall|x: int|
            i <= x < j ==> fields[x].0 != k,
        member_index(fields, k, i) is None ==> forall|x: int| i <= x < fields.len() ==> fields[x].0 != k,
    decreases fields.len() - i,
{
    if 0 <= i < fields.len() && fields[i].0 != k {
        lemma_member_index(fields, k, i + 1);
    }
}

proof fn lemma_lookup_finds(fields: Seq<(Seq<char>, JsonView)>, k: Seq<char>, i: int, j: int)
    requires
        0 <= i <= j < fields.len(),
        fields[j].0 == k,
        forall|x: int| i <= x < j ==> fields[x].0 != k,
    ensures
        lookup_at(fields, k, i) == Some(fields[j].1),
    decreases j - i,
{
    if i < j {
        lemma_lookup_finds(fields, k, i + 1, j);
    }
}

/// What a step's outcome means for the pipeline: a failed run or a failing
/// result stops it; a good result is recorded under the step's id (its tool
/// name when it has none) for the steps after it.
pub fn record_step(
    pipeline_name: &str,
    step: &PipelineStep,
    outcome: Result<ToolResult, String>,
    steps_out: &mut Vec<(String, JsonValue)>,
) -> (r: Result<ToolResult, String>)
    ensures
        match outcome {
            Err(_) => (r matches Err(m) && m@ == "pipeline '"@ + pipeline_name@ + "': step '"@ + step.tool@
                + "' failed"@) && final(steps_out)@ == old(steps_out)@,
            Ok(t) => if t.is_error {
                (r matches Err(m) && m@ == "pipeline '"@ + pipeline_name@ + "': step '"@ + step.tool@
                    + "' returned an error: "@ + t.stderr@) && final(steps_out)@ == old(steps_out)@
            } else {
                r == Ok::<ToolResult, String>(t) && view_json_fields(final(steps_out)@) == set_member(
                    view_json_fields(old(steps_out)@),
                    match step.id {
                        Some(id) => id@,
                        None => step.tool@,
                    },
                    output_value(
                        match t.structured {
                            Some(v) => Some(v@),
                            None => None,
                        },
                        t.stdout@,
                    ),
                )
            },
        },
{
    let t = match outcome {
        Err(_) => return Err(cat5("pipeline '", pipeline_name, "': step '", step.tool.as_str(), "' failed")),
        Ok(t) => t,
    };
    if t.is_error {
        let mut m = cat5("pipeline '", pipeline_name, "': step '", step.tool.as_str(), "' returned an error: ");
        m.append(t.stderr.as_str());
        return Err(m);
    }
    let id = match &step.id {
        Some(id) => id.clone(),
        None => step.tool.clone(),
    };
    let value = step_output_value(&t);
    let ghost fs = view_json_fields(steps_out@);
    let ghost idv = id@;
    proof {
        crate::template::render::lemma_view_fields_len(steps_out@);
    }
    let mut i: usize = 0;
    while i < steps_out.len()
        invariant
            i <= steps_out@.len(),
            outcome == Ok::<ToolResult, String>(t),
            !t.is_error,
            steps_out@ == old(steps_out)@,
            id@ == idv,
            idv == (match step.id {
                Some(x) => x@,
                None => step.tool@,
            }),
            value@ == output_value(
                match t.structured {
                    Some(v) => Some(v@),
                    None => None,
                },
                t.stdout@,
            ),
            fs == view_json_fields(steps_out@),
            fs.len() == steps_out@.len(),
            member_index(fs, id@, 0) == member_index(fs, id@, i as int),
        decreases steps_out@.len() - i,
    {
        proof {
            crate::template::render::lemma_view_fields_index(steps_out@, i as int);
        }
        if steps_out[i].0 == id {
            let ghost before = steps_out@;
            let ghost pair = (id, value);
            steps_out.set(i, (id, value));
            proof {
                assert(member_index(fs, id@, 0) == Some(i as int));
                assert forall|j: int| 0 <= j < steps_out@.len() implies #[trigger] view_json_fields(steps_out@)[j]
                    == fs.update(i as int, (id@, value@))[j] by {
                    crate::template::render::lemma_view_fields_index(steps_out@, j);
                    crate::template::render::lemma_view_fields_index(before, j);
                }
                crate::template::render::lemma_view_fields_len(steps_out@);
                assert(view_json_fields(steps_out@) =~= fs.update(i as int, (id@, value@)));
            }
            return Ok(t);
        }
        i = i + 1;
    }
    let ghost before = steps_out@;
    steps_out.push((id, value));
    proof {
        assert(steps_out@.drop_last() =~= before);
    }
    Ok(t)
}

/// What a step records is what the steps after it find under its id, and
/// every other id keeps what it had.
pub proof fn law_recorded_output_is_visible(fields: Seq<(Seq<char>, JsonView)>, k: Seq<char>, v: JsonView, other: Seq<char>)
    ensures
        lookup(set_member(fields, k, v), k) == Some(v),
        other != k ==> lookup(set_member(fields, k, v), other) == lookup(fields, other),
{
    lemma_member_index(fields, k, 0);
    let s = set_member(fields, k, v);
    match member_index(fields, k, 0) {
        Some(i) => {
            lemma_lookup_finds(s, k, 0, i);
        },
        None => {
            lemma_lookup_finds(s, k, 0, fields.len() as int);
        },
    }
    if other != k {
        lemma_lookup_same(fields, s, other, 0);
    }
}

/// Two member lists that differ only in members not named `other` agree on
/// `other`.
proof fn lemma_lookup_same(a: Seq<(Seq<char>, JsonView)>, b: Seq<(Seq<char>, JsonView)>, other: Seq<char>, i: int)
    requires
        0 <= i,
        a.len() <= b.len(),
        forall|x: int| 0 <= x < a.len() ==> (a[x].0 == other <==> b[x].0 == other),
        forall|x: int| 0 <= x < a.len() && a[x].0 == other ==> a[x] == b[x],
        forall|x: int| a.len() <= x < b.len() ==> b[x].0 != other,
    ensures
        lookup_at(a, other, i) == lookup_at(b, other, i),
    decreases b.len() - i,
{
    if i < b.len() {
        lemma_lookup_same(a, b, other, i + 1);
    }
}

} // verus!
