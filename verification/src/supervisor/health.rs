//! What a health check concludes, from whether the process lives and, for an
//! http check, from what the probe got back.
use crate::config::model::{HealthcheckConfig, HealthcheckType};
use crate::text::cat2;
use vstd::prelude::*;
use vstd::string::*;

verus! {

#[derive(Debug)]
pub enum HealthResult {
    Healthy,
    Unhealthy(String),
    ProcessDead,
}

/// The next step of a health check.
#[derive(Debug)]
pub enum HealthPlan {
    /// The check is settled without a probe.
    Settled(HealthResult),
    /// Send a GET to `url`, waiting at most `timeout_ms`.
    ProbeHttp { url: String, timeout_ms: u64 },
}

/// What an http probe got back.
pub enum ProbeOutcome {
    /// A response: whether its status is a success (2xx), and the status as
    /// text (`200 OK`).
    Responded { success: bool, status: String },
    /// The request itself failed, with this error text.
    Failed(String),
}

/// Decides the check up to the probe: a dead process is dead; with no
/// healthcheck, or a process check, a live process is healthy; an http check
/// needs its url.
pub fn plan_health_check(alive: bool, healthcheck: &Option<HealthcheckConfig>) -> (r: HealthPlan)
    ensures
        !alive ==> r matches HealthPlan::Settled(HealthResult::ProcessDead),
        alive ==> match *healthcheck {
            None => r matches HealthPlan::Settled(HealthResult::Healthy),
            Some(h) => match h.check_type {
                HealthcheckType::Process => r matches HealthPlan::Settled(HealthResult::Healthy),
                HealthcheckType::Http => match h.url {
                    Some(u) => (r matches HealthPlan::ProbeHttp { url, timeout_ms } && url@ == u@ && timeout_ms
                        == h.timeout_ms),
                    None => (r matches HealthPlan::Settled(HealthResult::Unhealthy(m)) && m@
                        == "http healthcheck missing url"@),
                },
            },
        },
{
    if !alive {
        return HealthPlan::Settled(HealthResult::ProcessDead);
    }
    match healthcheck {
        None => HealthPlan::Settled(HealthResult::Healthy),
        Some(hc) => match hc.check_type {
            HealthcheckType::Http => match &hc.url {
                Some(u) => HealthPlan::ProbeHttp { url: u.clone(), timeout_ms: hc.timeout_ms },
                None => HealthPlan::Settled(
                    HealthResult::Unhealthy(String::from_str("http healthcheck missing url")),
                ),
            },
            HealthcheckType::Process => HealthPlan::Settled(HealthResult::Healthy),
        },
    }
}

/// What an http probe's outcome means: a success status is healthy, anything
/// else unhealthy with the reason.
pub fn probe_verdict(outcome: ProbeOutcome) -> (r: HealthResult)
    ensures
        match outcome {
            ProbeOutcome::Responded { success: true, .. } => r matches HealthResult::Healthy,
            ProbeOutcome::Responded { success: false, status } => (r matches HealthResult::Unhealthy(m) && m@
                == "healthcheck returned "@ + status@),
            ProbeOutcome::Failed(e) => (r matches HealthResult::Unhealthy(m) && m@ == "healthcheck failed: "@ + e@),
        },
{
    match outcome {
        ProbeOutcome::Responded { success, status } => {
            if success {
                HealthResult::Healthy
            } else {
                HealthResult::Unhealthy(cat2("healthcheck returned ", status.as_str()))
            }
        },
        ProbeOutcome::Failed(e) => HealthResult::Unhealthy(cat2("healthcheck failed: ", e.as_str())),
    }
}

} // verus!
