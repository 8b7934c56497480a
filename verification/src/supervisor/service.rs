//! A managed service: its config and what is known of its run.
use crate::config::model::ServiceConfig;
use crate::supervisor::child::process_running;
use crate::table::Named;
use vstd::prelude::*;
use vstd::string::*;

verus! {

#[derive(Debug, Clone, Copy, PartialEq, Eq, Structural)]
pub enum ServiceState {
    Starting,
    Online,
    Degraded,
    Stopped,
    Failed,
}

pub open spec fn service_state_text(s: ServiceState) -> Seq<char> {
    match s {
        ServiceState::Starting => "starting"@,
        ServiceState::Online => "online"@,
        ServiceState::Degraded => "degraded"@,
        ServiceState::Stopped => "stopped"@,
        ServiceState::Failed => "failed"@,
    }
}

impl ServiceState {
    /// The state's name, as status output shows it.
    pub fn to_string(&self) -> (r: String)
        ensures
            r@ == service_state_text(*self),
    {
        match self {
            ServiceState::Starting => String::from_str("starting"),
            ServiceState::Online => String::from_str("online"),
            ServiceState::Degraded => String::from_str("degraded"),
            ServiceState::Stopped => String::from_str("stopped"),
            ServiceState::Failed => String::from_str("failed"),
        }
    }
}

pub struct ManagedService {
    pub config: ServiceConfig,
    pub state: ServiceState,
    pub handle: Option<tokio::process::Child>,
    pub pid: Option<u32>,
    pub started_at: Option<std::time::Instant>,
    pub last_health_check: Option<std::time::Instant>,
    pub restart_count: u32,
}

impl Named for ManagedService {
    open spec fn key(&self) -> Seq<char> {
        self.config.name@
    }

    fn key_str(&self) -> (r: &str) {
        self.config.name.as_str()
    }
}

impl ManagedService {
    /// A service that has not been started.
    pub fn new(config: ServiceConfig) -> (r: Self)
        ensures
            r.config == config,
            r.state == ServiceState::Stopped,
            r.handle is None,
            r.pid is None,
            r.started_at is None,
            r.last_health_check is None,
            r.restart_count == 0,
    {
        ManagedService {
            config,
            state: ServiceState::Stopped,
            handle: None,
            pid: None,
            started_at: None,
            last_health_check: None,
            restart_count: 0,
        }
    }

    /// Whether the process is still running; without a handle it is not.
    pub fn is_alive(&mut self) -> (r: bool)
        ensures
            old(self).handle is None ==> !r,
            final(self).handle is Some <==> old(self).handle is Some,
            final(self).config == old(self).config,
            final(self).state == old(self).state,
            final(self).pid == old(self).pid,
            final(self).started_at == old(self).started_at,
            final(self).last_health_check == old(self).last_health_check,
            final(self).restart_count == old(self).restart_count,
    {
        match &mut self.handle {
            Some(handle) => process_running(handle),
            None => false,
        }
    }

    pub fn name(&self) -> (r: &str)
        ensures
            r@ == self.config.name@,
    {
        self.config.name.as_str()
    }
}

} // verus!
