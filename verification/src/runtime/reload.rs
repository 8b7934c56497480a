//! Whether a reload applies, and what it changes. The children are started
//! and stopped by the caller in the order the diff gives.
use crate::config::diff::{
    added_services, added_tools, changed_services, changed_tools, diff_configs, diff_spec, diff_with_itself_is_empty,
    find_service, lemma_added_service_absent, lemma_changed_service_differs, lemma_found_service_present, ConfigDiff,
};
use crate::config::model::{lemma_view_strings, same_service, McpifyConfig, ServiceConfig};
use crate::config::validate::{config_errors, validate, vs, ValidationFailure};
use crate::text::{cat3, str_eq};
use vstd::prelude::*;
use vstd::string::*;

verus! {

/// What a reload does with a newly read config.
pub enum ReloadDecision {
    /// The new config is invalid: the running state is kept as it is.
    Invalid(ValidationFailure),
    /// The new config changes no tool and no service.
    Unchanged,
    /// Apply these changes.
    Apply(ConfigDiff),
}

/// The tools and services of `new` are those of `old`, none changed.
pub open spec fn no_changes(old: McpifyConfig, new: McpifyConfig) -> bool {
    &&& added_tools(old.tools@, new.tools@, new.tools@.len() as int).len() == 0
    &&& added_tools(new.tools@, old.tools@, old.tools@.len() as int).len() == 0
    &&& changed_tools(old.tools@, new.tools@, old.tools@.len() as int).len() == 0
    &&& added_services(old.services@, new.services@, new.services@.len() as int).len() == 0
    &&& added_services(new.services@, old.services@, old.services@.len() as int).len() == 0
    &&& changed_services(old.services@, new.services@, old.services@.len() as int).len() == 0
}

/// A reload validates the new config first and keeps the running state when
/// it is invalid; otherwise it applies the diff, if there is one.
pub fn decide_reload(current: &McpifyConfig, new: &McpifyConfig) -> (r: ReloadDecision)
    ensures
        match r {
            ReloadDecision::Invalid(f) => config_errors(*new).len() > 0 && vs(f.errors@) == config_errors(*new),
            ReloadDecision::Unchanged => config_errors(*new).len() == 0 && no_changes(*current, *new),
            ReloadDecision::Apply(d) => config_errors(*new).len() == 0 && diff_spec(*current, *new, d)
                && !d.spec_is_empty(),
        },
{
    match validate(new) {
        Err(f) => ReloadDecision::Invalid(f),
        Ok(_) => {
            let d = diff_configs(current, new);
            if d.is_empty() {
                ReloadDecision::Unchanged
            } else {
                ReloadDecision::Apply(d)
            }
        },
    }
}

/// The error a reload reports for an invalid config.
pub fn invalid_reload_message() -> (r: String)
    ensures
        r@ == "reload: new config is invalid — keeping current state"@,
{
    String::from_str("reload: new config is invalid — keeping current state")
}

/// The error of a reload aborted because a new child did not start.
pub fn start_abort_message(name: &str, error: &str) -> (r: String)
    ensures
        r@ == "reload aborted: failed to start child '"@ + name@ + "': "@ + error@,
{
    let mut m = cat3("reload aborted: failed to start child '", name, "': ");
    m.append(error);
    m
}

/// Index of the first service named `k` at or after `i`.
pub open spec fn service_index(s: Seq<ServiceConfig>, k: Seq<char>, i: int) -> Option<int>
    decreases s.len() - i,
{
    if i < 0 || i >= s.len() {
        None
    } else if s[i].name@ == k {
        Some(i)
    } else {
        service_index(s, k, i + 1)
    }
}

/// The first service named `name` in `config`.
pub fn service_named<'a>(config: &'a McpifyConfig, name: &str) -> (r: Option<&'a ServiceConfig>)
    ensures
        match service_index(config.services@, name@, 0) {
            Some(i) => r matches Some(s) && *s == config.services@[i],
            None => r is None,
        },
{
    let s = &config.services;
    let mut i: usize = 0;
    while i < s.len()
        invariant
            i <= s@.len(),
            *s == config.services,
            service_index(s@, name@, 0) == service_index(s@, name@, i as int),
        decreases s@.len() - i,
    {
        if str_eq(s[i].name.as_str(), name) {
            return Some(&s[i]);
        }
        i = i + 1;
    }
    None
}

/// One step of applying a reload.
#[derive(Debug)]
pub enum ReloadStep {
    /// Start the new service with this name.
    StartService(String),
    /// Give the new services a moment, then check their health.
    CheckHealth,
    /// Swap in the new tool registry and config.
    UpdateRegistry,
    /// Stop the service with this name and start it with its new config.
    RestartService(String),
    /// Stop the removed service with this name.
    StopService(String),
}

/// Whether `step` starts the service `name`.
pub open spec fn starts(step: ReloadStep, name: Seq<char>) -> bool {
    step matches ReloadStep::StartService(s) && s@ == name
}

/// Whether `step` restarts the service `name`.
pub open spec fn restarts(step: ReloadStep, name: Seq<char>) -> bool {
    step matches ReloadStep::RestartService(s) && s@ == name
}

/// Whether `step` stops the service `name`.
pub open spec fn stops(step: ReloadStep, name: Seq<char>) -> bool {
    step matches ReloadStep::StopService(s) && s@ == name
}

/// The steps of a reload, in order: the new services start (followed by a
/// health check when there are any), the tool registry is updated, the
/// changed services restart, and the removed services stop.
pub open spec fn reload_steps(d: ConfigDiff) -> Seq<ReloadStep> {
    d.added_children@.map_values(|s: String| ReloadStep::StartService(s)) + (if d.added_children@.len() > 0 {
        seq![ReloadStep::CheckHealth]
    } else {
        Seq::<ReloadStep>::empty()
    }) + seq![ReloadStep::UpdateRegistry] + d.changed_children@.map_values(|s: String| ReloadStep::RestartService(s))
        + d.removed_children@.map_values(|s: String| ReloadStep::StopService(s))
}

/// The steps that apply `d`.
pub fn reload_plan(d: &ConfigDiff) -> (r: Vec<ReloadStep>)
    ensures
        r@ == reload_steps(*d),
{
    let mut out: Vec<ReloadStep> = Vec::new();
    let added = &d.added_children;
    let mut i: usize = 0;
    while i < added.len()
        invariant
            i <= added@.len(),
            *added == d.added_children,
            out@ == added@.take(i as int).map_values(|s: String| ReloadStep::StartService(s)),
        decreases added@.len() - i,
    {
        out.push(ReloadStep::StartService(added[i].clone()));
        proof {
            assert(added@.take(i + 1) =~= added@.take(i as int).push(added@[i as int]));
            assert(out@ =~= added@.take(i + 1).map_values(|s: String| ReloadStep::StartService(s)));
        }
        i = i + 1;
    }
    proof {
        assert(added@.take(added@.len() as int) =~= added@);
    }
    let ghost a = out@;
    if added.len() > 0 {
        out.push(ReloadStep::CheckHealth);
    }
    out.push(ReloadStep::UpdateRegistry);
    proof {
        assert(out@ =~= a + (if d.added_children@.len() > 0 {
            seq![ReloadStep::CheckHealth]
        } else {
            Seq::<ReloadStep>::empty()
        }) + seq![ReloadStep::UpdateRegistry]);
    }
    let ghost b = out@;
    let changed = &d.changed_children;
    let mut j: usize = 0;
    while j < changed.len()
        invariant
            j <= changed@.len(),
            *changed == d.changed_children,
            out@ == b + changed@.take(j as int).map_values(|s: String| ReloadStep::RestartService(s)),
        decreases changed@.len() - j,
    {
        out.push(ReloadStep::RestartService(changed[j].clone()));
        proof {
            assert(changed@.take(j + 1) =~= changed@.take(j as int).push(changed@[j as int]));
            assert(out@ =~= b + changed@.take(j + 1).map_values(|s: String| ReloadStep::RestartService(s)));
        }
        j = j + 1;
    }
    proof {
        assert(changed@.take(changed@.len() as int) =~= changed@);
    }
    let ghost c = out@;
    let removed = &d.removed_children;
    let mut k: usize = 0;
    while k < removed.len()
        invariant
            k <= removed@.len(),
            *removed == d.removed_children,
            out@ == c + removed@.take(k as int).map_values(|s: String| ReloadStep::StopService(s)),
        decreases removed@.len() - k,
    {
        out.push(ReloadStep::StopService(removed[k].clone()));
        proof {
            assert(removed@.take(k + 1) =~= removed@.take(k as int).push(removed@[k as int]));
            assert(out@ =~= c + removed@.take(k + 1).map_values(|s: String| ReloadStep::StopService(s)));
        }
        k = k + 1;
    }
    proof {
        assert(removed@.take(removed@.len() as int) =~= removed@);
        assert(out@ =~= reload_steps(*d));
    }
    out
}

/// Names of the services that the steps of `p` before step `n` start, in
/// order.
pub open spec fn started_before(p: Seq<ReloadStep>, n: int) -> Seq<Seq<char>>
    decreases n,
{
    if n <= 0 || p.len() == 0 {
        Seq::empty()
    } else if n > p.len() {
        started_before(p, p.len() as int)
    } else {
        started_before(p, n - 1) + match p[n - 1] {
            ReloadStep::StartService(s) => seq![s@],
            _ => Seq::empty(),
        }
    }
}

/// The services to stop and remove when step `failed` of `plan` (a start)
/// fails: exactly those the steps before it started, in order.
pub fn rollback_services(plan: &Vec<ReloadStep>, failed: usize) -> (r: Vec<String>)
    ensures
        vs(r@) == started_before(plan@, failed as int),
{
    let end = if failed < plan.len() {
        failed
    } else {
        plan.len()
    };
    let mut out: Vec<String> = Vec::new();
    let mut i: usize = 0;
    while i < end
        invariant
            i <= end <= plan@.len(),
            vs(out@) == started_before(plan@, i as int),
        decreases end - i,
    {
        let ghost before = out@;
        match &plan[i] {
            ReloadStep::StartService(s) => {
                out.push(s.clone());
            },
            _ => {},
        }
        proof {
            assert(vs(out@) =~= started_before(plan@, i + 1));
        }
        i = i + 1;
    }
    out
}

/// When the new service at position `i` fails to start, the services rolled
/// back are the new services before it.
pub proof fn law_rollback_stops_the_services_started_before(d: ConfigDiff, i: int)
    requires
        0 <= i <= d.added_children@.len(),
    ensures
        started_before(reload_steps(d), i) == vs(d.added_children@.take(i)),
    decreases i,
{
    let p = reload_steps(d);
    let sa = d.added_children@.map_values(|s: String| ReloadStep::StartService(s));
    if i > 0 {
        law_rollback_stops_the_services_started_before(d, i - 1);
        assert(p[i - 1] == sa[i - 1]);
        assert(d.added_children@.take(i).drop_last() =~= d.added_children@.take(i - 1));
        assert(vs(d.added_children@.take(i)) =~= vs(d.added_children@.take(i - 1)).push(d.added_children@[i - 1]@));
        assert(started_before(p, i) =~= vs(d.added_children@.take(i)));
    } else {
        assert(vs(d.added_children@.take(0)) =~= Seq::<Seq<char>>::empty());
    }
}

/// Reload is diff-based: a service that both configs define the same way is
/// not started, restarted or stopped by any step of the reload.
pub proof fn law_reload_leaves_unchanged_services_alone(old: McpifyConfig, new: McpifyConfig, d: ConfigDiff, k: Seq<char>)
    requires
        diff_spec(old, new, d),
        find_service(old.services@, k) matches Some(i) && find_service(new.services@, k) matches Some(j)
            && same_service(old.services@[i], new.services@[j]),
    ensures
        forall|x: int|
            0 <= x < reload_steps(d).len() ==> !starts(#[trigger] reload_steps(d)[x], k) && !restarts(
                reload_steps(d)[x],
                k,
            ) && !stops(reload_steps(d)[x], k),
{
    let p = reload_steps(d);
    let sa = d.added_children@.map_values(|s: String| ReloadStep::StartService(s));
    let hs = if d.added_children@.len() > 0 {
        seq![ReloadStep::CheckHealth]
    } else {
        Seq::<ReloadStep>::empty()
    };
    let us = seq![ReloadStep::UpdateRegistry];
    let rc = d.changed_children@.map_values(|s: String| ReloadStep::RestartService(s));
    let sr = d.removed_children@.map_values(|s: String| ReloadStep::StopService(s));
    assert(p == sa + hs + us + rc + sr);
    let n1 = sa.len() as int;
    let n2 = n1 + hs.len();
    let n3 = n2 + 1;
    let n4 = n3 + rc.len();
    lemma_found_service_present(old.services@, k);
    lemma_found_service_present(new.services@, k);
    lemma_view_strings(d.added_children@);
    lemma_view_strings(d.changed_children@);
    lemma_view_strings(d.removed_children@);
    assert forall|x: int| 0 <= x < p.len() implies !starts(#[trigger] p[x], k) && !restarts(p[x], k) && !stops(
        p[x],
        k,
    ) by {
        if x < n1 {
            assert(p[x] == sa[x]);
            if starts(p[x], k) {
                assert(vs(d.added_children@)[x] == k);
                lemma_added_service_absent(old.services@, new.services@, new.services@.len() as int, k);
            }
        } else if x < n2 {
            assert(p[x] == hs[x - n1]);
        } else if x < n3 {
            assert(p[x] == us[x - n2]);
        } else if x < n4 {
            let y = x - n3;
            assert(p[x] == rc[y]);
            if restarts(p[x], k) {
                assert(vs(d.changed_children@)[y] == k);
                lemma_changed_service_differs(old.services@, new.services@, old.services@.len() as int, k);
            }
        } else {
            let y = x - n4;
            assert(p[x] == sr[y]);
            if stops(p[x], k) {
                assert(vs(d.removed_children@)[y] == k);
                lemma_added_service_absent(new.services@, old.services@, old.services@.len() as int, k);
            }
        }
    }
}

/// Reloading a valid config into itself changes nothing.
pub proof fn law_reload_of_same_config_is_noop(c: McpifyConfig, d: ConfigDiff)
    requires
        diff_spec(c, c, d),
    ensures
        no_changes(c, c),
{
    diff_with_itself_is_empty(c, d);
}

} // verus!
