//! A supervised child process: its config and what is known of its run.
use crate::config::model::ChildConfig;
use crate::table::Named;
use vstd::prelude::*;
use vstd::string::*;

verus! {

#[verifier::external_type_specification]
#[verifier::external_body]
pub struct ExProcessHandle(tokio::process::Child);

#[verifier::external_type_specification]
#[verifier::external_body]
pub struct ExInstant(std::time::Instant);

/// `tokio::process::Child::try_wait`: `Some(true)` once the process has
/// exited, `Some(false)` while it runs, `None` when its status could not be
/// read. Which comes back is up to the operating system, so nothing is
/// promised of the result.
#[verifier::external_body]
pub(crate) fn try_wait_exited(handle: &mut tokio::process::Child) -> Option<bool> {
    match handle.try_wait() {
        Ok(status) => Some(status.is_some()),
        Err(_) => None,
    }
}

/// What a read of a process's status means: it runs when the status reads
/// as not exited; a status that cannot be read counts as not running.
pub fn status_means_running(exited: Option<bool>) -> (r: bool)
    ensures
        r == (exited == Some(false)),
{
    match exited {
        Some(e) => !e,
        None => false,
    }
}

/// Whether the process still runs, as its status reads now.
pub(crate) fn process_running(handle: &mut tokio::process::Child) -> bool {
    status_means_running(try_wait_exited(handle))
}

#[derive(Debug, Clone, Copy, PartialEq, Eq, Structural)]
pub enum ChildState {
    Starting,
    Online,
    Degraded,
    Stopped,
    Failed,
}

pub open spec fn child_state_text(s: ChildState) -> Seq<char> {
    match s {
        ChildState::Starting => "starting"@,
        ChildState::Online => "online"@,
        ChildState::Degraded => "degraded"@,
        ChildState::Stopped => "stopped"@,
        ChildState::Failed => "failed"@,
    }
}

impl ChildState {
    /// The state's name, as status output shows it.
    pub fn to_string(&self) -> (r: String)
        ensures
            r@ == child_state_text(*self),
    {
        match self {
            ChildState::Starting => String::from_str("starting"),
            ChildState::Online => String::from_str("online"),
            ChildState::Degraded => String::from_str("degraded"),
            ChildState::Stopped => String::from_str("stopped"),
            ChildState::Failed => String::from_str("failed"),
        }
    }
}

pub struct ChildProcess {
    pub config: ChildConfig,
    pub state: ChildState,
    pub handle: Option<tokio::process::Child>,
    pub pid: Option<u32>,
    pub started_at: Option<std::time::Instant>,
    pub last_health_check: Option<std::time::Instant>,
    pub restart_count: u32,
}

impl Named for ChildProcess {
    open spec fn key(&self) -> Seq<char> {
        self.config.name@
    }

    fn key_str(&self) -> (r: &str) {
        self.config.name.as_str()
    }
}

impl ChildProcess {
    /// A child that has not been started.
    pub fn new(config: ChildConfig) -> (r: Self)
        ensures
            r.config == config,
            r.state == ChildState::Stopped,
            r.handle is None,
            r.pid is None,
            r.started_at is None,
            r.last_health_check is None,
            r.restart_count == 0,
    {
        ChildProcess {
            config,
            state: ChildState::Stopped,
            handle: None,
            pid: None,
            started_at: None,
            last_health_check: None,
            restart_count: 0,
        }
    }

    /// Whether the process is still running; without a handle it is not.
    pub fn is_alive(&mut self) -> (r: bool)
        ensures
            old(self).handle is None ==> !r,
            final(self).handle is Some <==> old(self).handle is Some,
            final(self).config == old(self).config,
            final(self).state == old(self).state,
            final(self).pid == old(self).pid,
            final(self).started_at == old(self).started_at,
            final(self).last_health_check == old(self).last_health_check,
            final(self).restart_count == old(self).restart_count,
    {
        match &mut self.handle {
            Some(handle) => process_running(handle),
            None => false,
        }
    }

    pub fn name(&self) -> (r: &str)
        ensures
            r@ == self.config.name@,
    {
        self.config.name.as_str()
    }
}

} // verus!
