//! Background caching for tools with a `cache` block: the last stored result
//! of each cached tool, how fresh it is, and which pollers should run. The
//! pollers themselves, and the clock, are the caller's.
use crate::adapters::ToolResult;
use crate::config::model::{McpifyConfig, ToolConfig};
use crate::json::{view_json_fields, JsonValue, JsonView};
use crate::table::{Named, NamedTable};
use crate::text::{decimal, lemma_precedes_irreflexive, precedes, str_eq, u64_to_decimal};
use vstd::prelude::*;
use vstd::string::*;

verus! {

#[verifier::external_type_specification]
#[verifier::external_body]
pub struct ExSystemTime(std::time::SystemTime);

/// The last stored result of a cached tool plus freshness bookkeeping.
pub struct CachedEntry {
    pub result: ToolResult,
    pub fetched_at: std::time::SystemTime,
    pub stale: bool,
    pub last_error: Option<String>,
}

pub open spec fn opt_text_json(o: Option<String>) -> JsonView {
    match o {
        Some(s) => JsonView::Str(s@),
        None => JsonView::Null,
    }
}

/// The freshness members for a result's `_meta`, in key order.
pub open spec fn freshness_view(e: CachedEntry, age_ms: u64, fetched_at_unix_ms: u64) -> Seq<(Seq<char>, JsonView)> {
    seq![
        ("age_ms"@, JsonView::Number(decimal(age_ms as nat))),
        ("cached"@, JsonView::Bool(true)),
        ("fetched_at_unix_ms"@, JsonView::Number(decimal(fetched_at_unix_ms as nat))),
        ("last_error"@, opt_text_json(e.last_error)),
        ("stale"@, JsonView::Bool(e.stale)),
    ]
}

impl CachedEntry {
    /// A result just fetched.
    pub fn fresh(result: ToolResult, now: std::time::SystemTime) -> (r: Self)
        ensures
            r.result == result,
            r.fetched_at == now,
            !r.stale,
            r.last_error is None,
    {
        CachedEntry { result, fetched_at: now, stale: false, last_error: None }
    }

    /// Freshness metadata for the MCP result `_meta`, given how old the entry
    /// is and when it was fetched (UTC unix milliseconds).
    pub fn freshness_meta(&self, age_ms: u64, fetched_at_unix_ms: u64) -> (r: Vec<(String, JsonValue)>)
        ensures
            view_json_fields(r@) == freshness_view(*self, age_ms, fetched_at_unix_ms),
    {
        let mut m: Vec<(String, JsonValue)> = Vec::new();
        push_member(&mut m, "age_ms", JsonValue::Number(u64_to_decimal(age_ms)));
        push_member(&mut m, "cached", JsonValue::Bool(true));
        push_member(&mut m, "fetched_at_unix_ms", JsonValue::Number(u64_to_decimal(fetched_at_unix_ms)));
        let last = match &self.last_error {
            Some(e) => JsonValue::Str(e.clone()),
            None => JsonValue::Null,
        };
        push_member(&mut m, "last_error", last);
        push_member(&mut m, "stale", JsonValue::Bool(self.stale));
        proof {
            assert(view_json_fields(m@) =~= freshness_view(*self, age_ms, fetched_at_unix_ms));
        }
        m
    }
}

fn push_member(fields: &mut Vec<(String, JsonValue)>, k: &str, v: JsonValue)
    ensures
        view_json_fields(final(fields)@) == view_json_fields(old(fields)@).push((k@, v@)),
{
    let key = String::from_str(k);
    proof {
        assert(old(fields)@.push((key, v)).drop_last() =~= old(fields)@);
    }
    fields.push((key, v));
}

/// A cached entry under its tool's name.
pub struct CacheSlot {
    pub name: String,
    pub entry: CachedEntry,
}

impl Named for CacheSlot {
    open spec fn key(&self) -> Seq<char> {
        self.name@
    }

    fn key_str(&self) -> (r: &str) {
        self.name.as_str()
    }
}

/// The cached results, by tool name.
/// The cache after `entry` is stored under `name`, replacing what was there.
pub open spec fn with_stored(m: Map<Seq<char>, CacheSlot>, name: String, entry: CachedEntry) -> Map<
    Seq<char>,
    CacheSlot,
> {
    m.insert(name@, CacheSlot { name, entry })
}

/// The cache after a refresh of `k` failed with `error`: a stored entry keeps
/// its result and is marked stale with the error; a cold cache stays cold.
pub open spec fn with_failure(m: Map<Seq<char>, CacheSlot>, k: Seq<char>, error: String) -> Map<Seq<char>, CacheSlot> {
    if m.contains_key(k) {
        m.insert(
            k,
            CacheSlot { name: m[k].name, entry: CachedEntry { stale: true, last_error: Some(error), ..m[k].entry } },
        )
    } else {
        m
    }
}

pub struct ResultCache {
    slots: NamedTable<CacheSlot>,
}

impl View for ResultCache {
    type V = Map<Seq<char>, CacheSlot>;

    closed spec fn view(&self) -> Map<Seq<char>, CacheSlot> {
        self.slots@
    }
}

impl ResultCache {
    pub fn new() -> (r: Self)
        ensures
            r@ == Map::<Seq<char>, CacheSlot>::empty(),
    {
        ResultCache { slots: NamedTable::new() }
    }

    /// The stored entry of the tool `name`.
    pub fn get(&self, name: &str) -> (r: Option<&CachedEntry>)
        ensures
            match r {
                Some(e) => self@.contains_key(name@) && *e == self@[name@].entry,
                None => !self@.contains_key(name@),
            },
    {
        match self.slots.get(name) {
            Some(s) => Some(&s.entry),
            None => None,
        }
    }

    /// Stores a freshly fetched entry, replacing what was there.
    pub fn store(&mut self, name: String, entry: CachedEntry)
        ensures
            final(self)@ == with_stored(old(self)@, name, entry),
    {
        self.slots.insert(CacheSlot { name, entry });
    }

    /// Records a failed refresh: a stored entry keeps its result and is marked
    /// stale with the error; with nothing stored the cache stays cold.
    pub fn mark_failed(&mut self, name: &str, error: String)
        ensures
            final(self)@ == with_failure(old(self)@, name@, error),
    {
        let ghost before = self@;
        match self.slots.remove(name) {
            Some(mut s) => {
                s.entry.stale = true;
                s.entry.last_error = Some(error);
                self.slots.insert(s);
                proof {
                    assert(self@ =~= before.insert(
                        name@,
                        CacheSlot {
                            name: before[name@].name,
                            entry: CachedEntry { stale: true, last_error: Some(error), ..before[name@].entry },
                        },
                    ));
                }
            },
            None => {
                proof {
                    assert(self@ =~= before);
                }
            },
        }
    }
}

/// Index of the last tool at or before `n - 1` that is named `k` and has a
/// cache block (`-1` when there is none): that tool's interval is the one a
/// poller runs at.
pub open spec fn last_cached(tools: Seq<ToolConfig>, k: Seq<char>, n: int) -> int
    decreases n,
{
    if n <= 0 || n > tools.len() {
        -1
    } else if tools[n - 1].name@ == k && tools[n - 1].cache is Some {
        n - 1
    } else {
        last_cached(tools, k, n - 1)
    }
}

/// The interval a poller for `k` should run at, if `k` is cached at all.
pub open spec fn desired_interval(tools: Seq<ToolConfig>, k: Seq<char>) -> Option<u64> {
    let i = last_cached(tools, k, tools.len() as int);
    if 0 <= i < tools.len() {
        Some(tools[i].cache->0.refresh_interval_ms)
    } else {
        None
    }
}

/// Whether a poller for `k` at `interval` is among the running ones.
pub open spec fn running_at(running: Seq<(String, u64)>, k: Seq<char>, interval: u64) -> bool {
    exists|i: int| 0 <= i < running.len() && #[trigger] running[i].0@ == k && running[i].1 == interval
}

/// The pollers to stop: those whose tool lost its cache block or whose
/// interval changed, in the order they are listed.
pub open spec fn stop_list(running: Seq<(String, u64)>, tools: Seq<ToolConfig>) -> Seq<Seq<char>>
    decreases running.len(),
{
    if running.len() == 0 {
        Seq::empty()
    } else {
        let rest = stop_list(running.drop_last(), tools);
        let (k, iv) = running.last();
        if desired_interval(tools, k@) != Some(iv) {
            rest.push(k@)
        } else {
            rest
        }
    }
}

/// The pollers to start: each cached tool (at the position of the tool
/// whose interval counts) that is not already running at that interval.
pub open spec fn start_list(tools: Seq<ToolConfig>, running: Seq<(String, u64)>, n: int) -> Seq<(Seq<char>, u64)>
    decreases n,
{
    if n <= 0 || n > tools.len() {
        Seq::empty()
    } else {
        let rest = start_list(tools, running, n - 1);
        let t = tools[n - 1];
        if t.cache is Some && last_cached(tools, t.name@, tools.len() as int) == n - 1 && !running_at(
            running,
            t.name@,
            t.cache->0.refresh_interval_ms,
        ) {
            rest.push((t.name@, t.cache->0.refresh_interval_ms))
        } else {
            rest
        }
    }
}

/// What reconciling the pollers with a config does.
pub struct PollerPlan {
    pub stop: Vec<String>,
    pub start: Vec<(String, u64)>,
}

fn desired_interval_of(tools: &Vec<ToolConfig>, k: &str) -> (r: Option<u64>)
    ensures
        r == desired_interval(tools@, k@),
{
    let mut n: usize = tools.len();
    while n > 0
        invariant
            n <= tools@.len(),
            last_cached(tools@, k@, tools@.len() as int) == last_cached(tools@, k@, n as int),
        decreases n,
    {
        let t = &tools[n - 1];
        match &t.cache {
            Some(c) => {
                if str_eq(t.name.as_str(), k) {
                    return Some(c.refresh_interval_ms);
                }
            },
            None => {},
        }
        n = n - 1;
    }
    None
}

fn is_running_at(running: &Vec<(String, u64)>, k: &str, interval: u64) -> (r: bool)
    ensures
        r == running_at(running@, k@, interval),
{
    let mut i: usize = 0;
    while i < running.len()
        invariant
            i <= running@.len(),
            forall|j: int| 0 <= j < i ==> !(#[trigger] running@[j].0@ == k@ && running@[j].1 == interval),
        decreases running@.len() - i,
    {
        if running[i].1 == interval && str_eq(running[i].0.as_str(), k) {
            return true;
        }
        i = i + 1;
    }
    false
}

/// Which pollers to stop and which to start so that exactly the tools with a
/// cache block are polled, each at its interval. `running` lists the pollers
/// that run now, one per tool.
pub fn reconcile_plan(running: &Vec<(String, u64)>, config: &McpifyConfig) -> (r: PollerPlan)
    ensures
        r.stop@.map_values(|s: String| s@) == stop_list(running@, config.tools@),
        r.start@.map_values(|p: (String, u64)| (p.0@, p.1)) == start_list(
            config.tools@,
            running@,
            config.tools@.len() as int,
        ),
        names_distinct(running@) ==> forall|i: int|
            0 <= i < running@.len() && desired_interval(config.tools@, (#[trigger] running@[i]).0@) == Some(
                running@[i].1,
            ) ==> !r.stop@.map_values(|s: String| s@).contains(running@[i].0@) && forall|j: int|
                0 <= j < r.start@.len() ==> r.start@[j].0@ != running@[i].0@,
{
    let tools = &config.tools;
    let mut stop: Vec<String> = Vec::new();
    let mut i: usize = 0;
    while i < running.len()
        invariant
            i <= running@.len(),
            *tools == config.tools,
            stop@.map_values(|s: String| s@) == stop_list(running@.take(i as int), tools@),
        decreases running@.len() - i,
    {
        let want = desired_interval_of(tools, running[i].0.as_str());
        let ghost prev = stop@;
        proof {
            assert(running@.take(i + 1).drop_last() =~= running@.take(i as int));
            assert(running@.take(i + 1).last() == running@[i as int]);
        }
        let keep = match want {
            Some(iv) => iv == running[i].1,
            None => false,
        };
        if !keep {
            stop.push(running[i].0.clone());
            proof {
                assert(stop@.map_values(|s: String| s@) =~= prev.map_values(|s: String| s@).push(running@[i as int].0@));
            }
        }
        i = i + 1;
    }
    proof {
        assert(running@.take(running@.len() as int) =~= running@);
    }
    let mut start: Vec<(String, u64)> = Vec::new();
    let mut n: usize = 0;
    while n < tools.len()
        invariant
            n <= tools@.len(),
            *tools == config.tools,
            start@.map_values(|p: (String, u64)| (p.0@, p.1)) == start_list(tools@, running@, n as int),
        decreases tools@.len() - n,
    {
        let t = &tools[n];
        let ghost prev = start@;
        match &t.cache {
            Some(c) => {
                let want = desired_interval_of(tools, t.name.as_str());
                let counts = match want {
                    Some(iv) => iv == c.refresh_interval_ms && last_cached_is(tools, n),
                    None => false,
                };
                if counts && !is_running_at(running, t.name.as_str(), c.refresh_interval_ms) {
                    start.push((t.name.clone(), c.refresh_interval_ms));
                    proof {
                        assert(start@.map_values(|p: (String, u64)| (p.0@, p.1)) =~= prev.map_values(
                            |p: (String, u64)| (p.0@, p.1),
                        ).push((t.name@, c.refresh_interval_ms)));
                    }
                }
            },
            None => {},
        }
        n = n + 1;
    }
    proof {
        if names_distinct(running@) {
            assert forall|i: int|
                0 <= i < running@.len() && desired_interval(config.tools@, (#[trigger] running@[i]).0@) == Some(
                    running@[i].1,
                ) implies !stop@.map_values(|s: String| s@).contains(running@[i].0@) && forall|j: int|
                0 <= j < start@.len() ==> start@[j].0@ != running@[i].0@ by {
                lemma_kept_poller(running@, config.tools@, i);
                assert forall|j: int| 0 <= j < start@.len() implies start@[j].0@ != running@[i].0@ by {
                    let sv = start@.map_values(|p: (String, u64)| (p.0@, p.1));
                    assert(sv[j] == (start@[j].0@, start@[j].1));
                    assert(sv.contains((start@[j].0@, start@[j].1)));
                }
            }
        }
    }
    PollerPlan { stop, start }
}

/// Whether no tool after index `n` has the same name as tool `n` and a cache
/// block.
fn last_cached_is(tools: &Vec<ToolConfig>, n: usize) -> (r: bool)
    requires
        n < tools@.len(),
        tools@[n as int].cache is Some,
    ensures
        r == (last_cached(tools@, tools@[n as int].name@, tools@.len() as int) == n),
{
    let name = tools[n].name.as_str();
    let mut m: usize = tools.len();
    while m > n + 1
        invariant
            n + 1 <= m <= tools@.len(),
            name@ == tools@[n as int].name@,
            tools@[n as int].cache is Some,
            last_cached(tools@, name@, tools@.len() as int) == last_cached(tools@, name@, m as int),
        decreases m,
    {
        let t = &tools[m - 1];
        if t.cache.is_some() && str_eq(t.name.as_str(), name) {
            return false;
        }
        m = m - 1;
    }
    true
}

/// Names occur at most once among the running pollers.
pub open spec fn names_distinct(running: Seq<(String, u64)>) -> bool {
    forall|i: int, j: int| 0 <= i < j < running.len() ==> running[i].0@ != running[j].0@
}

/// Whether a poller for `k` at `interval` runs once the pollers in `stop`
/// are stopped and those in `start` started.
pub open spec fn runs_after(
    running: Seq<(String, u64)>,
    stop: Seq<Seq<char>>,
    start: Seq<(Seq<char>, u64)>,
    k: Seq<char>,
    interval: u64,
) -> bool {
    (running_at(running, k, interval) && !stop.contains(k)) || start.contains((k, interval))
}

proof fn lemma_last_cached(tools: Seq<ToolConfig>, k: Seq<char>, n: int)
    requires
        0 <= n <= tools.len(),
    ensures
        -1 <= last_cached(tools, k, n) < n,
        last_cached(tools, k, n) >= 0 ==> tools[last_cached(tools, k, n)].name@ == k && tools[last_cached(
            tools,
            k,
            n,
        )].cache is Some,
    decreases n,
{
    if n > 0 {
        lemma_last_cached(tools, k, n - 1);
    }
}

proof fn lemma_stop_list(running: Seq<(String, u64)>, tools: Seq<ToolConfig>, k: Seq<char>)
    ensures
        stop_list(running, tools).contains(k) <==> exists|i: int|
            0 <= i < running.len() && #[trigger] running[i].0@ == k && desired_interval(tools, k) != Some(running[i].1),
    decreases running.len(),
{
    if running.len() > 0 {
        let rest = running.drop_last();
        lemma_stop_list(rest, tools, k);
        let last = running.last();
        if stop_list(running, tools).contains(k) {
            if stop_list(rest, tools).contains(k) {
                let i = choose|i: int| 0 <= i < rest.len() && #[trigger] rest[i].0@ == k && desired_interval(tools, k)
                    != Some(rest[i].1);
                assert(running[i] == rest[i]);
            } else {
                assert(desired_interval(tools, last.0@) != Some(last.1));
                assert(stop_list(running, tools) == stop_list(rest, tools).push(last.0@));
                assert(stop_list(running, tools).last() == last.0@);
                if last.0@ != k {
                    assert forall|j: int| 0 <= j < stop_list(running, tools).len() implies stop_list(running, tools)[j]
                        != k by {
                        if j < stop_list(rest, tools).len() {
                            assert(stop_list(running, tools)[j] == stop_list(rest, tools)[j]);
                        }
                    }
                }
                assert(running[running.len() - 1].0@ == k);
            }
        }
        if exists|i: int| 0 <= i < running.len() && #[trigger] running[i].0@ == k && desired_interval(tools, k) != Some(
            running[i].1,
        ) {
            let i = choose|i: int| 0 <= i < running.len() && #[trigger] running[i].0@ == k && desired_interval(tools, k)
                != Some(running[i].1);
            if i < running.len() - 1 {
                assert(rest[i] == running[i]);
                let j = choose|j: int| 0 <= j < stop_list(rest, tools).len() && stop_list(rest, tools)[j] == k;
                if desired_interval(tools, last.0@) != Some(last.1) {
                    assert(stop_list(running, tools)[j] == k);
                } else {
                    assert(stop_list(running, tools) == stop_list(rest, tools));
                }
            } else {
                assert(stop_list(running, tools).last() == k);
            }
        }
    }
}

proof fn lemma_start_list(tools: Seq<ToolConfig>, running: Seq<(String, u64)>, n: int, k: Seq<char>, iv: u64)
    requires
        0 <= n <= tools.len(),
    ensures
        start_list(tools, running, n).contains((k, iv)) <==> {
            let m = last_cached(tools, k, tools.len() as int);
            &&& 0 <= m < n
            &&& tools[m].cache->0.refresh_interval_ms == iv
            &&& !running_at(running, k, iv)
        },
    decreases n,
{
    lemma_last_cached(tools, k, tools.len() as int);
    if n > 0 {
        lemma_start_list(tools, running, n - 1, k, iv);
        let rest = start_list(tools, running, n - 1);
        let t = tools[n - 1];
        lemma_last_cached(tools, t.name@, tools.len() as int);
        let added = t.cache is Some && last_cached(tools, t.name@, tools.len() as int) == n - 1 && !running_at(
            running,
            t.name@,
            t.cache->0.refresh_interval_ms,
        );
        if added {
            let whole = rest.push((t.name@, t.cache->0.refresh_interval_ms));
            assert(start_list(tools, running, n) == whole);
            if whole.contains((k, iv)) && !rest.contains((k, iv)) {
                let j = choose|j: int| 0 <= j < whole.len() && whole[j] == (k, iv);
                if j < rest.len() {
                    assert(rest[j] == whole[j]);
                }
            }
            if rest.contains((k, iv)) {
                let j = choose|j: int| 0 <= j < rest.len() && rest[j] == (k, iv);
                assert(whole[j] == rest[j]);
            }
            if t.name@ == k && t.cache->0.refresh_interval_ms == iv {
                assert(whole[whole.len() - 1] == (k, iv));
            }
        }
    }
}

/// A running poller whose tool keeps its cache block at the same interval is
/// neither stopped nor started again, when each tool has one poller.
proof fn lemma_kept_poller(running: Seq<(String, u64)>, tools: Seq<ToolConfig>, i: int)
    requires
        names_distinct(running),
        0 <= i < running.len(),
        desired_interval(tools, running[i].0@) == Some(running[i].1),
    ensures
        !stop_list(running, tools).contains(running[i].0@),
        forall|iv: u64| !#[trigger] start_list(tools, running, tools.len() as int).contains((running[i].0@, iv)),
{
    let k = running[i].0@;
    lemma_stop_list(running, tools, k);
    if stop_list(running, tools).contains(k) {
        let j = choose|j: int| 0 <= j < running.len() && #[trigger] running[j].0@ == k && desired_interval(tools, k)
            != Some(running[j].1);
        if j < i {
            assert(running[j].0@ != running[i].0@);
        } else if i < j {
            assert(running[i].0@ != running[j].0@);
        }
    }
    assert(running_at(running, k, running[i].1));
    assert forall|iv: u64| !#[trigger] start_list(tools, running, tools.len() as int).contains((k, iv)) by {
        lemma_start_list(tools, running, tools.len() as int, k, iv);
        lemma_last_cached(tools, k, tools.len() as int);
    }
}

/// Carrying out the plan of [`reconcile_plan`] leaves exactly the pollers the
/// config asks for: one for each tool with a cache block, at its interval.
pub proof fn law_reconcile_matches_config(
    running: Seq<(String, u64)>,
    tools: Seq<ToolConfig>,
    k: Seq<char>,
    interval: u64,
)
    requires
        names_distinct(running),
    ensures
        runs_after(running, stop_list(running, tools), start_list(tools, running, tools.len() as int), k, interval)
            <==> desired_interval(tools, k) == Some(interval),
{
    lemma_stop_list(running, tools, k);
    lemma_start_list(tools, running, tools.len() as int, k, interval);
    lemma_last_cached(tools, k, tools.len() as int);
    if running_at(running, k, interval) {
        let i = choose|i: int| 0 <= i < running.len() && #[trigger] running[i].0@ == k && running[i].1 == interval;
        if stop_list(running, tools).contains(k) {
            let j = choose|j: int| 0 <= j < running.len() && #[trigger] running[j].0@ == k && desired_interval(tools, k)
                != Some(running[j].1);
            if i != j {
                if i < j {
                    assert(running[i].0@ != running[j].0@);
                } else {
                    assert(running[j].0@ != running[i].0@);
                }
            }
        } else {
            assert(!(desired_interval(tools, k) != Some(running[i].1)));
        }
    }
}

/// The names a plan stops.
pub open spec fn stop_names(p: PollerPlan) -> Seq<Seq<char>> {
    p.stop@.map_values(|s: String| s@)
}

/// The pollers a plan starts, with their intervals.
pub open spec fn start_pairs(p: PollerPlan) -> Seq<(Seq<char>, u64)> {
    p.start@.map_values(|q: (String, u64)| (q.0@, q.1))
}

/// A running poller: the tool it polls and its interval.
pub struct RunningPoller {
    pub name: String,
    pub interval_ms: u64,
}

impl Named for RunningPoller {
    open spec fn key(&self) -> Seq<char> {
        self.name@
    }

    fn key_str(&self) -> (r: &str) {
        self.name.as_str()
    }
}

/// The pollers that run, at most one per tool, seen as a map from tool name
/// to interval.
pub struct PollerSet {
    pollers: NamedTable<RunningPoller>,
}

impl View for PollerSet {
    type V = Map<Seq<char>, u64>;

    closed spec fn view(&self) -> Map<Seq<char>, u64> {
        self.pollers@.map_values(|p: RunningPoller| p.interval_ms)
    }
}

/// The pollers after the stopped ones are taken out.
pub open spec fn without_stopped(m: Map<Seq<char>, u64>, stop: Seq<Seq<char>>) -> Map<Seq<char>, u64> {
    Map::new(|k: Seq<char>| m.contains_key(k) && !stop.contains(k), |k: Seq<char>| m[k])
}

/// The pollers after the started ones are put in, in order.
pub open spec fn with_started(m: Map<Seq<char>, u64>, start: Seq<(Seq<char>, u64)>) -> Map<Seq<char>, u64>
    decreases start.len(),
{
    if start.len() == 0 {
        m
    } else {
        with_started(m, start.drop_last()).insert(start.last().0, start.last().1)
    }
}

/// The pollers after a plan is carried out: the stopped ones out, then the
/// started ones in.
pub open spec fn applied(m: Map<Seq<char>, u64>, stop: Seq<Seq<char>>, start: Seq<(Seq<char>, u64)>) -> Map<
    Seq<char>,
    u64,
> {
    with_started(without_stopped(m, stop), start)
}

/// What starting pollers does to each name: a started name runs at the
/// interval it was started at (all starts of a name agree); any other name
/// is as it was.
proof fn lemma_with_started(m: Map<Seq<char>, u64>, start: Seq<(Seq<char>, u64)>, k: Seq<char>, v: u64)
    requires
        forall|j: int| 0 <= j < start.len() && (#[trigger] start[j]).0 == k ==> start[j].1 == v,
    ensures
        with_started(m, start).contains_key(k) <==> m.contains_key(k) || exists|j: int|
            0 <= j < start.len() && (#[trigger] start[j]).0 == k,
        (exists|j: int| 0 <= j < start.len() && (#[trigger] start[j]).0 == k) ==> with_started(m, start)[k] == v,
        !(exists|j: int| 0 <= j < start.len() && (#[trigger] start[j]).0 == k) && m.contains_key(k) ==> with_started(
            m,
            start,
        )[k] == m[k],
    decreases start.len(),
{
    if start.len() > 0 {
        let rest = start.drop_last();
        assert forall|j: int| 0 <= j < rest.len() && (#[trigger] rest[j]).0 == k implies rest[j].1 == v by {
            assert(rest[j] == start[j]);
        }
        lemma_with_started(m, rest, k, v);
        if exists|j: int| 0 <= j < rest.len() && (#[trigger] rest[j]).0 == k {
            let j = choose|j: int| 0 <= j < rest.len() && (#[trigger] rest[j]).0 == k;
            assert(start[j] == rest[j]);
        }
        if exists|j: int| 0 <= j < start.len() && (#[trigger] start[j]).0 == k {
            let j = choose|j: int| 0 <= j < start.len() && (#[trigger] start[j]).0 == k;
            if j < start.len() - 1 {
                assert(rest[j] == start[j]);
            }
        }
        if !(exists|j: int| 0 <= j < start.len() && (#[trigger] start[j]).0 == k) {
            assert(start[start.len() - 1].0 != k);
            assert forall|j: int| 0 <= j < rest.len() implies (#[trigger] rest[j]).0 != k by {
                assert(rest[j] == start[j]);
            }
        }
    }
}

impl PollerSet {
    /// No poller runs.
    pub fn new() -> (r: Self)
        ensures
            r@ == Map::<Seq<char>, u64>::empty(),
    {
        let r = PollerSet { pollers: NamedTable::new() };
        proof {
            assert(r@ =~= Map::<Seq<char>, u64>::empty());
        }
        r
    }

    /// Records that a poller for `name` runs at `interval_ms`, replacing any
    /// poller of that name.
    pub fn insert(&mut self, name: String, interval_ms: u64)
        ensures
            final(self)@ == old(self)@.insert(name@, interval_ms),
    {
        let ghost before = self.pollers@;
        self.pollers.insert(RunningPoller { name, interval_ms });
        proof {
            assert(self@ =~= before.map_values(|p: RunningPoller| p.interval_ms).insert(name@, interval_ms));
        }
    }

    /// Records that the poller for `name` no longer runs.
    pub fn remove(&mut self, name: &str)
        ensures
            final(self)@ == old(self)@.remove(name@),
    {
        let ghost before = self.pollers@;
        let _ = self.pollers.remove(name);
        proof {
            assert(self@ =~= before.map_values(|p: RunningPoller| p.interval_ms).remove(name@));
        }
    }

    /// Every poller with its interval, in name order; each name once.
    pub fn entries(&self) -> (r: Vec<(String, u64)>)
        ensures
            names_distinct(r@),
            forall|i: int| 0 <= i < r@.len() ==> self@.contains_key((#[trigger] r@[i]).0@) && self@[r@[i].0@] == r@[i].1,
            forall|k: Seq<char>| #[trigger] self@.contains_key(k) ==> exists|i: int| 0 <= i < r@.len() && (#[trigger] r@[i]).0@ == k,
    {
        let l = self.pollers.list();
        let mut out: Vec<(String, u64)> = Vec::new();
        let mut i: usize = 0;
        while i < l.len()
            invariant
                i <= l@.len(),
                out@.len() == i,
                forall|j: int| 0 <= j < i ==> (#[trigger] out@[j]).0@ == l@[j].key() && out@[j].1 == l@[j].interval_ms,
            decreases l@.len() - i,
        {
            out.push((l[i].name.clone(), l[i].interval_ms));
            i = i + 1;
        }
        proof {
            assert forall|a: int, b: int| 0 <= a < b < out@.len() implies out@[a].0@ != out@[b].0@ by {
                assert(precedes(l@[a].key(), l@[b].key()));
                lemma_precedes_irreflexive(l@[a].key());
            }
            assert forall|a: int| 0 <= a < out@.len() implies self@.contains_key((#[trigger] out@[a]).0@)
                && self@[out@[a].0@] == out@[a].1 by {
                assert(out@[a].0@ == l@[a].key());
            }
            assert forall|k: Seq<char>| #[trigger] self@.contains_key(k) implies exists|a: int|
                0 <= a < out@.len() && (#[trigger] out@[a]).0@ == k by {
                let a = choose|a: int| 0 <= a < l@.len() && #[trigger] l@[a].key() == k;
                assert(out@[a].0@ == k);
            }
        }
        out
    }

    /// Which pollers to stop and which to start so that exactly the tools
    /// with a cache block are polled, each at its interval: a poller is
    /// stopped when its tool lost its cache block or changed interval, and
    /// started when its tool is cached and no poller runs it at that
    /// interval. A poller whose tool keeps its interval is left running.
    pub fn reconcile(&self, config: &McpifyConfig) -> (r: PollerPlan)
        ensures
            forall|k: Seq<char>|
                #[trigger] stop_names(r).contains(k) <==> self@.contains_key(k)
                    && desired_interval(config.tools@, k) != Some(self@[k]),
            forall|k: Seq<char>, iv: u64|
                #[trigger] start_pairs(r).contains((k, iv)) <==> desired_interval(
                    config.tools@,
                    k,
                ) == Some(iv) && !(self@.contains_key(k) && self@[k] == iv),
            forall|k: Seq<char>|
                #[trigger] self@.contains_key(k) && desired_interval(config.tools@, k) == Some(self@[k]) ==> !r.stop@.map_values(
                    |s: String| s@,
                ).contains(k) && forall|j: int| 0 <= j < r.start@.len() ==> r.start@[j].0@ != k,
    {
        let e = self.entries();
        let r = reconcile_plan(&e, config);
        proof {
            let tools = config.tools@;
            let sv = stop_names(r);
            let pv = start_pairs(r);
            assert forall|k: Seq<char>| #[trigger] sv.contains(k) <==> self@.contains_key(k) && desired_interval(tools, k)
                != Some(self@[k]) by {
                lemma_stop_list(e@, tools, k);
                if self@.contains_key(k) {
                    let i = choose|i: int| 0 <= i < e@.len() && (#[trigger] e@[i]).0@ == k;
                    assert(e@[i].0@ == k);
                }
            }
            assert forall|k: Seq<char>, iv: u64| #[trigger] pv.contains((k, iv)) <==> desired_interval(tools, k) == Some(iv)
                && !(self@.contains_key(k) && self@[k] == iv) by {
                lemma_start_list(tools, e@, tools.len() as int, k, iv);
                lemma_last_cached(tools, k, tools.len() as int);
                if running_at(e@, k, iv) {
                    let i = choose|i: int| 0 <= i < e@.len() && #[trigger] e@[i].0@ == k && e@[i].1 == iv;
                    assert(e@[i].0@ == k);
                }
                if self@.contains_key(k) && self@[k] == iv {
                    let i = choose|i: int| 0 <= i < e@.len() && (#[trigger] e@[i]).0@ == k;
                    assert(e@[i].0@ == k && e@[i].1 == iv);
                    assert(running_at(e@, k, iv));
                }
            }
            assert forall|k: Seq<char>| #[trigger] self@.contains_key(k) && desired_interval(tools, k) == Some(self@[k]) implies !sv.contains(
                k,
            ) && forall|j: int| 0 <= j < r.start@.len() ==> r.start@[j].0@ != k by {
                assert forall|j: int| 0 <= j < r.start@.len() implies r.start@[j].0@ != k by {
                    assert(pv[j] == (r.start@[j].0@, r.start@[j].1));
                    assert(pv.contains((r.start@[j].0@, r.start@[j].1)));
                }
            }
        }
        r
    }

    /// Records that the plan was carried out: the stopped pollers are taken
    /// out, then the started ones put in.
    pub fn apply(&mut self, plan: &PollerPlan)
        ensures
            final(self)@ == applied(old(self)@, stop_names(*plan), start_pairs(*plan)),
    {
        let ghost m0 = self@;
        let ghost sv = plan.stop@.map_values(|s: String| s@);
        let ghost pv = plan.start@.map_values(|p: (String, u64)| (p.0@, p.1));
        let mut i: usize = 0;
        while i < plan.stop.len()
            invariant
                i <= plan.stop@.len(),
                sv == plan.stop@.map_values(|s: String| s@),
                self@ == without_stopped(m0, sv.take(i as int)),
            decreases plan.stop@.len() - i,
        {
            self.remove(plan.stop[i].as_str());
            proof {
                let t0 = sv.take(i as int);
                let t1 = sv.take(i + 1);
                assert forall|k: Seq<char>| t1.contains(k) <==> t0.contains(k) || k == sv[i as int] by {
                    if t1.contains(k) {
                        let a = choose|a: int| 0 <= a < t1.len() && t1[a] == k;
                        if a < i {
                            assert(t0[a] == k);
                        }
                    }
                    if t0.contains(k) {
                        let a = choose|a: int| 0 <= a < t0.len() && t0[a] == k;
                        assert(t1[a] == k);
                    }
                    if k == sv[i as int] {
                        assert(t1[i as int] == k);
                    }
                }
                assert(self@ =~= without_stopped(m0, t1));
            }
            i = i + 1;
        }
        proof {
            assert(sv.take(sv.len() as int) =~= sv);
        }
        let ghost m1 = self@;
        let mut j: usize = 0;
        while j < plan.start.len()
            invariant
                j <= plan.start@.len(),
                pv == plan.start@.map_values(|p: (String, u64)| (p.0@, p.1)),
                self@ == with_started(m1, pv.take(j as int)),
            decreases plan.start@.len() - j,
        {
            self.insert(plan.start[j].0.clone(), plan.start[j].1);
            proof {
                assert(pv.take(j + 1).drop_last() =~= pv.take(j as int));
                assert(pv.take(j + 1).last() == pv[j as int]);
            }
            j = j + 1;
        }
        proof {
            assert(pv.take(pv.len() as int) =~= pv);
        }
    }
}

/// Carrying out the plan that [`PollerSet::reconcile`] gives leaves exactly
/// the pollers the config asks for: one for each tool with a cache block, at
/// its interval, and no other.
pub proof fn law_reconciled_pollers_match_config(
    m: Map<Seq<char>, u64>,
    tools: Seq<ToolConfig>,
    stop: Seq<Seq<char>>,
    start: Seq<(Seq<char>, u64)>,
    k: Seq<char>,
)
    requires
        forall|x: Seq<char>|
            #[trigger] stop.contains(x) <==> m.contains_key(x) && desired_interval(tools, x) != Some(m[x]),
        forall|x: Seq<char>, iv: u64|
            #[trigger] start.contains((x, iv)) <==> desired_interval(tools, x) == Some(iv) && !(m.contains_key(x)
                && m[x] == iv),
    ensures
        applied(m, stop, start).contains_key(k) <==> desired_interval(tools, k) is Some,
        applied(m, stop, start).contains_key(k) ==> desired_interval(tools, k) == Some(applied(m, stop, start)[k]),
{
    let w = without_stopped(m, stop);
    match desired_interval(tools, k) {
        Some(v) => {
            assert forall|j: int| 0 <= j < start.len() && (#[trigger] start[j]).0 == k implies start[j].1 == v by {
                assert(start.contains(start[j]));
            }
            lemma_with_started(w, start, k, v);
            if m.contains_key(k) && m[k] == v {
                assert(!stop.contains(k));
                assert(w.contains_key(k));
            } else {
                assert(start.contains((k, v)));
                let j = choose|j: int| 0 <= j < start.len() && start[j] == (k, v);
                assert(start[j].0 == k);
            }
        },
        None => {
            assert forall|j: int| 0 <= j < start.len() implies (#[trigger] start[j]).0 != k by {
                assert(start.contains(start[j]));
                if start[j].0 == k {
                    assert(start.contains((k, start[j].1)));
                }
            }
            lemma_with_started(w, start, k, 0);
            if m.contains_key(k) {
                assert(stop.contains(k));
            }
        },
    }
}

} // verus!
