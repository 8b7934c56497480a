//! The supervisor's book of children and the decisions it takes on them. The
//! processes themselves are spawned, signalled and probed by the caller, which
//! reports each outcome back here.
use crate::config::copy::copy_service;
use crate::config::model::{same_service, ChildConfig, McpifyConfig, RestartPolicy, ServiceConfig};
use crate::supervisor::child::{ChildProcess, ChildState};
use crate::supervisor::health::HealthResult;
use crate::table::{Named, NamedTable};
use crate::text::{cat2, precedes};
use vstd::prelude::*;
use vstd::string::*;

verus! {

/// How many restarts in a row a failed child gets.
pub const MAX_RESTARTS: u32 = 3;

pub enum SupervisorError {
    ChildNotFound(String),
}

impl SupervisorError {
    pub fn to_string(&self) -> (r: String)
        ensures
            match self {
                SupervisorError::ChildNotFound(n) => r@ == "child not found: "@ + n@,
            },
    {
        match self {
            SupervisorError::ChildNotFound(n) => cat2("child not found: ", n.as_str()),
        }
    }
}

pub open spec fn not_found(r: SupervisorError, name: Seq<char>) -> bool {
    r matches SupervisorError::ChildNotFound(n) && n@ == name
}

/// Index of the last service named `k` (`-1` when there is none).
pub open spec fn last_service_named(s: Seq<ServiceConfig>, k: Seq<char>) -> int
    decreases s.len(),
{
    if s.len() == 0 {
        -1
    } else if s.last().name@ == k {
        s.len() - 1
    } else {
        last_service_named(s.drop_last(), k)
    }
}

pub proof fn lemma_last_service_named_bounds(s: Seq<ServiceConfig>, k: Seq<char>)
    ensures
        -1 <= last_service_named(s, k) < s.len(),
        last_service_named(s, k) >= 0 ==> s[last_service_named(s, k)].name@ == k,
        last_service_named(s, k) < 0 <==> forall|i: int| 0 <= i < s.len() ==> #[trigger] s[i].name@ != k,
    decreases s.len(),
{
    if s.len() > 0 {
        lemma_last_service_named_bounds(s.drop_last(), k);
        if s.last().name@ != k {
            assert forall|i: int| 0 <= i < s.len() - 1 implies #[trigger] s[i].name@ == s.drop_last()[i].name@ by {}
        }
    }
}

/// A failed child is restarted while its policy allows it and it has had
/// fewer than [`MAX_RESTARTS`] restarts.
pub open spec fn restart_allowed(c: ChildProcess) -> bool {
    c.config.restart != RestartPolicy::Never && c.restart_count < MAX_RESTARTS
}

/// A child as [`ChildProcess::new`] makes it.
pub open spec fn fresh_child(config: ChildConfig) -> ChildProcess {
    ChildProcess {
        config,
        state: ChildState::Stopped,
        handle: None,
        pid: None,
        started_at: None,
        last_health_check: None,
        restart_count: 0,
    }
}

/// A child just spawned, with its restart count set to `count`.
pub open spec fn started_child(
    c: ChildProcess,
    handle: tokio::process::Child,
    pid: Option<u32>,
    now: std::time::Instant,
    count: u32,
) -> ChildProcess {
    ChildProcess {
        config: c.config,
        state: ChildState::Starting,
        handle: Some(handle),
        pid,
        started_at: Some(now),
        last_health_check: c.last_health_check,
        restart_count: count,
    }
}

/// A child whose process is gone.
pub open spec fn stopped_child(c: ChildProcess) -> ChildProcess {
    ChildProcess {
        config: c.config,
        state: ChildState::Stopped,
        handle: None,
        pid: None,
        started_at: c.started_at,
        last_health_check: c.last_health_check,
        restart_count: c.restart_count,
    }
}

/// The restart count after one more restart.
pub open spec fn next_count(n: u32) -> u32 {
    if n < u32::MAX {
        (n + 1) as u32
    } else {
        n
    }
}

/// A child after a health check: healthy is online, unhealthy is degraded, a
/// dead process is failed and loses its handle and pid.
pub open spec fn checked_child(c: ChildProcess, result: HealthResult, now: std::time::Instant) -> ChildProcess {
    match result {
        HealthResult::Healthy => ChildProcess {
            state: ChildState::Online,
            last_health_check: Some(now),
            ..c
        },
        HealthResult::Unhealthy(_) => ChildProcess {
            state: ChildState::Degraded,
            last_health_check: Some(now),
            ..c
        },
        HealthResult::ProcessDead => ChildProcess {
            state: ChildState::Failed,
            handle: None,
            pid: None,
            last_health_check: Some(now),
            ..c
        },
    }
}

/// Which children a name list holds.
enum Pick {
    All,
    Autostart,
    RestartDue,
}

spec fn picked(p: Pick, c: ChildProcess) -> bool {
    match p {
        Pick::All => true,
        Pick::Autostart => c.config.autostart,
        Pick::RestartDue => c.state == ChildState::Failed && restart_allowed(c),
    }
}

/// Whether a failed child is to be restarted.
pub fn should_restart(child: &ChildProcess) -> (r: bool)
    ensures
        r == restart_allowed(*child),
{
    match child.config.restart {
        RestartPolicy::Always => child.restart_count < MAX_RESTARTS,
        RestartPolicy::OnFailure => child.restart_count < MAX_RESTARTS,
        RestartPolicy::Never => false,
    }
}

pub struct SupervisorManager {
    children: NamedTable<ChildProcess>,
    graceful_timeout_ms: u64,
}

impl View for SupervisorManager {
    type V = Map<Seq<char>, ChildProcess>;

    closed spec fn view(&self) -> Map<Seq<char>, ChildProcess> {
        self.children@
    }
}

impl SupervisorManager {
    /// How long a child gets to stop after SIGTERM before it is killed.
    pub closed spec fn grace_ms(&self) -> u64 {
        self.graceful_timeout_ms
    }

    /// The children of the configured services, none started; of two services
    /// with one name, the later one counts.
    pub fn from_config(config: &McpifyConfig) -> (r: Self)
        ensures
            r.grace_ms() == config.supervisor.graceful_shutdown_timeout_ms,
            forall|k: Seq<char>|
                #![trigger r@.contains_key(k)]
                r@.contains_key(k) <==> last_service_named(config.services@, k) >= 0,
            forall|k: Seq<char>|
                #[trigger] r@.contains_key(k) ==> {
                    let c = r@[k];
                    &&& same_service(c.config, config.services@[last_service_named(config.services@, k)])
                    &&& c == fresh_child(c.config)
                },
    {
        let svcs = &config.services;
        let mut r = SupervisorManager {
            children: NamedTable::new(),
            graceful_timeout_ms: config.supervisor.graceful_shutdown_timeout_ms,
        };
        let mut i: usize = 0;
        while i < svcs.len()
            invariant
                i <= svcs@.len(),
                r.grace_ms() == config.supervisor.graceful_shutdown_timeout_ms,
                svcs == config.services,
                forall|k: Seq<char>| #[trigger] r@.contains_key(k) <==> last_service_named(svcs@.take(i as int), k) >= 0,
                forall|k: Seq<char>|
                    #[trigger] r@.contains_key(k) ==> same_service(
                        r@[k].config,
                        svcs@[last_service_named(svcs@.take(i as int), k)],
                    ) && r@[k] == fresh_child(r@[k].config),
            decreases svcs@.len() - i,
        {
            let c = copy_service(&svcs[i]);
            r.insert_child(c);
            proof {
                let s = svcs@.take(i + 1);
                assert(s.drop_last() =~= svcs@.take(i as int));
                assert forall|k: Seq<char>| k != svcs@[i as int].name@ implies last_service_named(s, k)
                    == last_service_named(svcs@.take(i as int), k) by {}
                assert(last_service_named(s, svcs@[i as int].name@) == i);
                assert forall|k: Seq<char>| #[trigger] r@.contains_key(k) implies last_service_named(s, k) >= 0 by {
                    lemma_last_service_named_bounds(svcs@.take(i as int), k);
                }
                assert forall|k: Seq<char>| last_service_named(s, k) >= 0 implies #[trigger] r@.contains_key(k) by {
                    lemma_last_service_named_bounds(svcs@.take(i as int), k);
                }
                assert forall|k: Seq<char>| #[trigger] r@.contains_key(k) implies same_service(
                    r@[k].config,
                    svcs@[last_service_named(s, k)],
                ) && r@[k] == fresh_child(r@[k].config) by {
                    lemma_last_service_named_bounds(svcs@.take(i as int), k);
                    lemma_last_service_named_bounds(s, k);
                }
            }
            i = i + 1;
        }
        proof {
            assert(svcs@.take(svcs@.len() as int) =~= svcs@);
        }
        r
    }

    pub fn graceful_timeout_ms(&self) -> (r: u64)
        ensures
            r == self.grace_ms(),
    {
        self.graceful_timeout_ms
    }

    /// Puts in a fresh, unstarted child for `config`, replacing any child of
    /// that name.
    pub fn insert_child(&mut self, config: ChildConfig)
        ensures
            final(self).grace_ms() == old(self).grace_ms(),
            final(self)@ == old(self)@.insert(config.name@, fresh_child(config)),
    {
        self.children.insert(ChildProcess::new(config));
    }

    /// Takes the child named `name` out of the book.
    pub fn remove_child(&mut self, name: &str) -> (r: Option<ChildProcess>)
        ensures
            final(self).grace_ms() == old(self).grace_ms(),
            r == (if old(self)@.contains_key(name@) {
                Some(old(self)@[name@])
            } else {
                None::<ChildProcess>
            }),
            final(self)@ == old(self)@.remove(name@),
    {
        self.children.remove(name)
    }

    pub fn child_config(&self, name: &str) -> (r: Option<&ChildConfig>)
        ensures
            match r {
                Some(c) => self@.contains_key(name@) && *c == self@[name@].config,
                None => !self@.contains_key(name@),
            },
    {
        match self.children.get(name) {
            Some(c) => Some(&c.config),
            None => None,
        }
    }

    pub fn get_state(&mut self, name: &str) -> (r: Option<ChildState>)
        ensures
            *final(self) == *old(self),
            r == (if old(self)@.contains_key(name@) {
                Some(old(self)@[name@].state)
            } else {
                None::<ChildState>
            }),
    {
        match self.children.get(name) {
            Some(c) => Some(c.state),
            None => None,
        }
    }

    pub fn is_child_online(&self, name: &str) -> (r: bool)
        ensures
            r == (self@.contains_key(name@) && self@[name@].state == ChildState::Online),
    {
        match self.children.get(name) {
            Some(c) => c.state == ChildState::Online,
            None => false,
        }
    }

    /// Name, state and pid of every child, in name order.
    pub fn get_all_statuses(&self) -> (r: Vec<(&str, ChildState, Option<u32>)>)
        ensures
            forall|i: int|
                0 <= i < r@.len() ==> self@.contains_key(#[trigger] r@[i].0@) && r@[i].1 == self@[r@[i].0@].state
                    && r@[i].2 == self@[r@[i].0@].pid,
            forall|k: Seq<char>| #[trigger]
                self@.contains_key(k) ==> exists|i: int| 0 <= i < r@.len() && #[trigger] r@[i].0@ == k,
            forall|i: int, j: int| 0 <= i < j < r@.len() ==> precedes(#[trigger] r@[i].0@, #[trigger] r@[j].0@),
    {
        let l = self.children.list();
        let mut out: Vec<(&str, ChildState, Option<u32>)> = Vec::new();
        let mut i: usize = 0;
        while i < l.len()
            invariant
                i <= l@.len(),
                out@.len() == i,
                forall|j: int|
                    0 <= j < i ==> (#[trigger] out@[j]).0@ == l@[j].key() && out@[j].1 == l@[j].state && out@[j].2
                        == l@[j].pid,
            decreases l@.len() - i,
        {
            let c = l[i];
            out.push((c.key_str(), c.state, c.pid));
            i = i + 1;
        }
        proof {
            assert forall|j: int| 0 <= j < out@.len() implies self@.contains_key(#[trigger] out@[j].0@)
                && out@[j].1 == self@[out@[j].0@].state && out@[j].2 == self@[out@[j].0@].pid by {
                assert(out@[j].0@ == l@[j].key());
            }
            assert forall|k: Seq<char>| #[trigger] self@.contains_key(k) implies exists|j: int|
                0 <= j < out@.len() && #[trigger] out@[j].0@ == k by {
                let j = choose|j: int| 0 <= j < l@.len() && #[trigger] l@[j].key() == k;
                assert(out@[j].0@ == k);
            }
            assert forall|a: int, b: int| 0 <= a < b < out@.len() implies precedes(
                #[trigger] out@[a].0@,
                #[trigger] out@[b].0@,
            ) by {
                assert(precedes(l@[a].key(), l@[b].key()));
            }
        }
        out
    }

    fn names_picked(&self, pick: Pick) -> (r: Vec<String>)
        ensures
            forall|i: int|
                0 <= i < r@.len() ==> self@.contains_key(#[trigger] r@[i]@) && picked(pick, self@[r@[i]@]),
            forall|k: Seq<char>|
                #[trigger] self@.contains_key(k) && picked(pick, self@[k]) ==> exists|i: int|
                    0 <= i < r@.len() && #[trigger] r@[i]@ == k,
            forall|i: int, j: int| 0 <= i < j < r@.len() ==> precedes(#[trigger] r@[i]@, #[trigger] r@[j]@),
    {
        let l = self.children.list();
        let mut out: Vec<String> = Vec::new();
        let ghost mut idx: Seq<int> = Seq::empty();
        let mut i: usize = 0;
        while i < l.len()
            invariant
                i <= l@.len(),
                forall|j: int|
                    0 <= j < l@.len() ==> self@.contains_key(#[trigger] l@[j].key()) && *l@[j] == self@[l@[j].key()],
                forall|a: int, b: int| 0 <= a < b < l@.len() ==> precedes(#[trigger] l@[a].key(), #[trigger] l@[b].key()),
                idx.len() == out@.len(),
                forall|a: int| 0 <= a < idx.len() ==> 0 <= #[trigger] idx[a] < i,
                forall|a: int| 0 <= a < idx.len() ==> (#[trigger] out@[a])@ == l@[idx[a]].key(),
                forall|a: int| 0 <= a < idx.len() ==> picked(pick, *l@[#[trigger] idx[a]]),
                forall|a: int, b: int| 0 <= a < b < idx.len() ==> #[trigger] idx[a] < #[trigger] idx[b],
                forall|j: int|
                    0 <= j < i && picked(pick, *#[trigger] l@[j]) ==> exists|a: int| 0 <= a < idx.len() && idx[a] == j,
            decreases l@.len() - i,
        {
            let c = l[i];
            let take = match pick {
                Pick::All => true,
                Pick::Autostart => c.config.autostart,
                Pick::RestartDue => c.state == ChildState::Failed && should_restart(c),
            };
            let ghost old_idx = idx;
            let ghost old_out = out@;
            if take {
                out.push(c.config.name.clone());
            }
            proof {
                if take {
                    idx = idx.push(i as int);
                }
                assert forall|a: int| 0 <= a < idx.len() implies (#[trigger] out@[a])@ == l@[idx[a]].key() by {
                    if a < old_idx.len() {
                        assert(out@[a] == old_out[a]);
                        assert(idx[a] == old_idx[a]);
                    } else {
                        assert(idx[a] == i);
                    }
                }
                assert forall|a: int| 0 <= a < idx.len() implies picked(pick, *l@[#[trigger] idx[a]]) by {
                    if a < old_idx.len() {
                        assert(out@[a] == old_out[a]);
                        assert(idx[a] == old_idx[a]);
                    } else {
                        assert(idx[a] == i);
                    }
                }
                assert forall|j: int| 0 <= j < i + 1 && picked(pick, *#[trigger] l@[j]) implies exists|a: int|
                    0 <= a < idx.len() && idx[a] == j by {
                    if j == i {
                        assert(idx[idx.len() - 1] == j);
                    } else {
                        let a = choose|a: int| 0 <= a < old_idx.len() && old_idx[a] == j;
                        assert(idx[a] == j);
                    }
                }
            }
            i = i + 1;
        }
        proof {
            assert forall|a: int| 0 <= a < out@.len() implies self@.contains_key(#[trigger] out@[a]@) && picked(
                pick,
                self@[out@[a]@],
            ) by {
                assert(out@[a]@ == l@[idx[a]].key());
            }
            assert forall|k: Seq<char>| #[trigger] self@.contains_key(k) && picked(pick, self@[k]) implies exists|a: int|
                0 <= a < out@.len() && #[trigger] out@[a]@ == k by {
                let j = choose|j: int| 0 <= j < l@.len() && #[trigger] l@[j].key() == k;
                assert(picked(pick, *l@[j]));
                let a = choose|a: int| 0 <= a < idx.len() && idx[a] == j;
                assert(out@[a]@ == k);
            }
            assert forall|a: int, b: int| 0 <= a < b < out@.len() implies precedes(
                #[trigger] out@[a]@,
                #[trigger] out@[b]@,
            ) by {
                assert(idx[a] < idx[b]);
                assert(precedes(l@[idx[a]].key(), l@[idx[b]].key()));
            }
        }
        out
    }

    /// Every child's name, in name order.
    pub fn names(&self) -> (r: Vec<String>)
        ensures
            forall|i: int| 0 <= i < r@.len() ==> self@.contains_key(#[trigger] r@[i]@),
            forall|k: Seq<char>| #[trigger]
                self@.contains_key(k) ==> exists|i: int| 0 <= i < r@.len() && #[trigger] r@[i]@ == k,
            forall|i: int, j: int| 0 <= i < j < r@.len() ==> precedes(#[trigger] r@[i]@, #[trigger] r@[j]@),
    {
        let r = self.names_picked(Pick::All);
        proof {
            assert forall|k: Seq<char>| #[trigger] self@.contains_key(k) implies exists|i: int|
                0 <= i < r@.len() && #[trigger] r@[i]@ == k by {
                assert(picked(Pick::All, self@[k]));
            }
        }
        r
    }

    /// The children to start with the runtime, in name order.
    pub fn autostart_names(&self) -> (r: Vec<String>)
        ensures
            forall|i: int|
                0 <= i < r@.len() ==> self@.contains_key(#[trigger] r@[i]@) && self@[r@[i]@].config.autostart,
            forall|k: Seq<char>|
                #[trigger] self@.contains_key(k) && self@[k].config.autostart ==> exists|i: int|
                    0 <= i < r@.len() && #[trigger] r@[i]@ == k,
            forall|i: int, j: int| 0 <= i < j < r@.len() ==> precedes(#[trigger] r@[i]@, #[trigger] r@[j]@),
    {
        let r = self.names_picked(Pick::Autostart);
        proof {
            assert forall|i: int| 0 <= i < r@.len() implies self@.contains_key(#[trigger] r@[i]@)
                && self@[r@[i]@].config.autostart by {
                assert(picked(Pick::Autostart, self@[r@[i]@]));
            }
            assert forall|k: Seq<char>| #[trigger] self@.contains_key(k) && self@[k].config.autostart implies exists|
                i: int,
            | 0 <= i < r@.len() && #[trigger] r@[i]@ == k by {
                assert(picked(Pick::Autostart, self@[k]));
            }
        }
        r
    }

    /// The failed children that are due a restart, in name order.
    pub fn restart_candidates(&self) -> (r: Vec<String>)
        ensures
            forall|i: int|
                0 <= i < r@.len() ==> self@.contains_key(#[trigger] r@[i]@) && self@[r@[i]@].state == ChildState::Failed
                    && restart_allowed(self@[r@[i]@]),
            forall|k: Seq<char>|
                #[trigger] self@.contains_key(k) && self@[k].state == ChildState::Failed && restart_allowed(self@[k])
                    ==> exists|i: int| 0 <= i < r@.len() && #[trigger] r@[i]@ == k,
            forall|i: int, j: int| 0 <= i < j < r@.len() ==> precedes(#[trigger] r@[i]@, #[trigger] r@[j]@),
    {
        let r = self.names_picked(Pick::RestartDue);
        proof {
            assert forall|i: int| 0 <= i < r@.len() implies self@.contains_key(#[trigger] r@[i]@) && self@[r@[i]@].state
                == ChildState::Failed && restart_allowed(self@[r@[i]@]) by {
                assert(picked(Pick::RestartDue, self@[r@[i]@]));
            }
            assert forall|k: Seq<char>| #[trigger] self@.contains_key(k) && self@[k].state == ChildState::Failed
                && restart_allowed(self@[k]) implies exists|i: int| 0 <= i < r@.len() && #[trigger] r@[i]@ == k by {
                assert(picked(Pick::RestartDue, self@[k]));
            }
        }
        r
    }

    /// Records that the child `name` was spawned: it is starting, with a
    /// fresh restart count.
    pub fn mark_started(
        &mut self,
        name: &str,
        handle: tokio::process::Child,
        pid: Option<u32>,
        now: std::time::Instant,
    ) -> (r: Result<(), SupervisorError>)
        ensures
            final(self).grace_ms() == old(self).grace_ms(),
            match r {
                Ok(()) => old(self)@.contains_key(name@) && final(self)@ == old(self)@.insert(
                    name@,
                    started_child(old(self)@[name@], handle, pid, now, 0),
                ),
                Err(e) => !old(self)@.contains_key(name@) && final(self)@ == old(self)@ && not_found(e, name@),
            },
    {
        let ghost before = self@;
        match self.children.remove(name) {
            Some(mut c) => {
                c.handle = Some(handle);
                c.pid = pid;
                c.state = ChildState::Starting;
                c.started_at = Some(now);
                c.restart_count = 0;
                self.children.insert(c);
                proof {
                    assert(self@ =~= before.insert(name@, started_child(before[name@], handle, pid, now, 0)));
                }
                Ok(())
            },
            None => {
                proof {
                    assert(self@ =~= before);
                }
                Err(SupervisorError::ChildNotFound(String::from_str(name)))
            },
        }
    }

    /// Records that the failed child `name` was spawned again: like
    /// [`Self::mark_started`], with one more restart counted.
    pub fn mark_restarted(
        &mut self,
        name: &str,
        handle: tokio::process::Child,
        pid: Option<u32>,
        now: std::time::Instant,
    ) -> (r: Result<(), SupervisorError>)
        ensures
            final(self).grace_ms() == old(self).grace_ms(),
            match r {
                Ok(()) => old(self)@.contains_key(name@) && final(self)@ == old(self)@.insert(
                    name@,
                    started_child(old(self)@[name@], handle, pid, now, next_count(old(self)@[name@].restart_count)),
                ),
                Err(e) => !old(self)@.contains_key(name@) && final(self)@ == old(self)@ && not_found(e, name@),
            },
    {
        let ghost before = self@;
        match self.children.remove(name) {
            Some(mut c) => {
                let count = if c.restart_count < u32::MAX {
                    c.restart_count + 1
                } else {
                    c.restart_count
                };
                c.handle = Some(handle);
                c.pid = pid;
                c.state = ChildState::Starting;
                c.started_at = Some(now);
                c.restart_count = count;
                self.children.insert(c);
                proof {
                    assert(self@ =~= before.insert(
                        name@,
                        started_child(before[name@], handle, pid, now, next_count(before[name@].restart_count)),
                    ));
                }
                Ok(())
            },
            None => {
                proof {
                    assert(self@ =~= before);
                }
                Err(SupervisorError::ChildNotFound(String::from_str(name)))
            },
        }
    }

    /// Takes the process handle of the child `name` out, to stop the process.
    pub fn take_handle(&mut self, name: &str) -> (r: Option<tokio::process::Child>)
        ensures
            final(self).grace_ms() == old(self).grace_ms(),
            old(self)@.contains_key(name@) ==> r == old(self)@[name@].handle && final(self)@ == old(self)@.insert(
                name@,
                ChildProcess { handle: None, ..old(self)@[name@] },
            ),
            !old(self)@.contains_key(name@) ==> r is None && final(self)@ == old(self)@,
    {
        let ghost before = self@;
        match self.children.remove(name) {
            Some(mut c) => {
                let h = c.handle.take();
                self.children.insert(c);
                proof {
                    assert(self@ =~= before.insert(name@, ChildProcess { handle: None, ..before[name@] }));
                }
                h
            },
            None => {
                proof {
                    assert(self@ =~= before);
                }
                None
            },
        }
    }

    /// Records that the child `name` was stopped.
    pub fn mark_stopped(&mut self, name: &str) -> (r: Result<(), SupervisorError>)
        ensures
            final(self).grace_ms() == old(self).grace_ms(),
            match r {
                Ok(()) => old(self)@.contains_key(name@) && final(self)@ == old(self)@.insert(
                    name@,
                    stopped_child(old(self)@[name@]),
                ),
                Err(e) => !old(self)@.contains_key(name@) && final(self)@ == old(self)@ && not_found(e, name@),
            },
    {
        let ghost before = self@;
        match self.children.remove(name) {
            Some(mut c) => {
                c.handle = None;
                c.pid = None;
                c.state = ChildState::Stopped;
                self.children.insert(c);
                proof {
                    assert(self@ =~= before.insert(name@, stopped_child(before[name@])));
                }
                Ok(())
            },
            None => {
                proof {
                    assert(self@ =~= before);
                }
                Err(SupervisorError::ChildNotFound(String::from_str(name)))
            },
        }
    }

    /// Whether the process of the child `name` is still running; an unknown
    /// child, or one without a process, is not.
    pub fn check_alive(&mut self, name: &str) -> (r: bool)
        ensures
            final(self).grace_ms() == old(self).grace_ms(),
            !old(self)@.contains_key(name@) ==> !r && final(self)@ == old(self)@,
            old(self)@.contains_key(name@) ==> {
                let (c, d) = (old(self)@[name@], final(self)@[name@]);
                &&& final(self)@ == old(self)@.insert(name@, d)
                &&& c.handle is None ==> !r
                &&& d.handle is Some <==> c.handle is Some
                &&& d == ChildProcess { handle: d.handle, ..c }
            },
    {
        let ghost before = self@;
        match self.children.remove(name) {
            Some(mut c) => {
                let alive = c.is_alive();
                self.children.insert(c);
                alive
            },
            None => {
                proof {
                    assert(self@ =~= before);
                }
                false
            },
        }
    }

    /// Records the result of a health check of the child `name`. A stopped or
    /// unknown child is left as it is.
    pub fn apply_health(&mut self, name: &str, result: HealthResult, now: std::time::Instant)
        ensures
            final(self).grace_ms() == old(self).grace_ms(),
            old(self)@.contains_key(name@) && old(self)@[name@].state != ChildState::Stopped ==> final(self)@
                == old(self)@.insert(name@, checked_child(old(self)@[name@], result, now)),
            !(old(self)@.contains_key(name@) && old(self)@[name@].state != ChildState::Stopped) ==> final(self)@
                == old(self)@,
    {
        let ghost before = self@;
        let ghost res = result;
        match self.children.remove(name) {
            Some(mut c) => {
                if c.state != ChildState::Stopped {
                    c.last_health_check = Some(now);
                    match result {
                        HealthResult::Healthy => {
                            c.state = ChildState::Online;
                        },
                        HealthResult::Unhealthy(_) => {
                            c.state = ChildState::Degraded;
                        },
                        HealthResult::ProcessDead => {
                            c.state = ChildState::Failed;
                            c.handle = None;
                            c.pid = None;
                        },
                    }
                    self.children.insert(c);
                    proof {
                        assert(self@ =~= before.insert(name@, checked_child(before[name@], res, now)));
                    }
                } else {
                    self.children.insert(c);
                    proof {
                        assert(self@ =~= before);
                    }
                }
            },
            None => {
                proof {
                    assert(self@ =~= before);
                }
            },
        }
    }
}

/// A restart is only ever granted below the cap, and never under the
/// `never` policy.
pub proof fn law_restarts_are_bounded(c: ChildProcess)
    ensures
        restart_allowed(c) ==> c.restart_count < MAX_RESTARTS,
        c.config.restart == RestartPolicy::Never ==> !restart_allowed(c),
        restart_allowed(c) ==> next_count(c.restart_count) <= MAX_RESTARTS,
{
}

/// A health check keeps a child's config and restart count, and sets its
/// state from the result alone: a healthy child (with no healthcheck, one
/// whose process lives) is online, an unhealthy one degraded, a dead one
/// failed and without a process.
pub proof fn law_health_sets_state(c: ChildProcess, result: HealthResult, now: std::time::Instant)
    ensures
        checked_child(c, result, now).config == c.config,
        checked_child(c, result, now).restart_count == c.restart_count,
        checked_child(c, result, now).last_health_check == Some(now),
        result is Healthy ==> checked_child(c, result, now).state == ChildState::Online,
        result is Unhealthy ==> checked_child(c, result, now).state == ChildState::Degraded,
        result is ProcessDead ==> checked_child(c, result, now).state == ChildState::Failed && checked_child(
            c,
            result,
            now,
        ).handle is None && checked_child(c, result, now).pid is None,
{
}

} // verus!
