use crate::config::model::{
    same_service, same_tool, service_equal, tool_equal, view_opt_auth, view_opt_healthcheck, view_opt_output,
    view_opt_schema, view_opt_string, view_pairs, view_steps, view_strings, McpifyConfig, ServiceConfig, ToolConfig,
};
use crate::config::validate::{
    find_tool, find_tool_from, find_tool_index, lemma_concat_contains, service_name_seen, tool_name_seen, vs,
};
use vstd::prelude::*;
use vstd::string::*;

verus! {

/// What changed between two configs, by tool and by service name.
pub struct ConfigDiff {
    pub added_tools: Vec<String>,
    pub removed_tools: Vec<String>,
    pub changed_tools: Vec<String>,
    pub added_children: Vec<String>,
    pub removed_children: Vec<String>,
    pub changed_children: Vec<String>,
}

impl ConfigDiff {
    pub open spec fn spec_is_empty(&self) -> bool {
        &&& self.added_tools@.len() == 0
        &&& self.removed_tools@.len() == 0
        &&& self.changed_tools@.len() == 0
        &&& self.added_children@.len() == 0
        &&& self.removed_children@.len() == 0
        &&& self.changed_children@.len() == 0
    }

    pub fn new() -> (r: ConfigDiff)
        ensures
            r.spec_is_empty(),
    {
        ConfigDiff {
            added_tools: Vec::new(),
            removed_tools: Vec::new(),
            changed_tools: Vec::new(),
            added_children: Vec::new(),
            removed_children: Vec::new(),
            changed_children: Vec::new(),
        }
    }

    pub fn is_empty(&self) -> (r: bool)
        ensures
            r == self.spec_is_empty(),
    {
        self.added_tools.len() == 0 && self.removed_tools.len() == 0 && self.changed_tools.len() == 0
            && self.added_children.len() == 0 && self.removed_children.len() == 0
            && self.changed_children.len() == 0
    }

    /// Whether any tool was added, removed or changed: when so, clients are
    /// told that the tool list changed.
    pub fn tools_changed(&self) -> (r: bool)
        ensures
            r == !(self.added_tools@.len() == 0 && self.removed_tools@.len() == 0 && self.changed_tools@.len() == 0),
    {
        !(self.added_tools.len() == 0 && self.removed_tools.len() == 0 && self.changed_tools.len() == 0)
    }

    /// One line summing the diff up: `no changes`, or the non-empty groups
    /// among `+tools`, `-tools`, `~tools`, `+children`, `-children`,
    /// `~children`, each with its names joined by `, `, the groups by `; `.
    pub fn to_string(&self) -> (r: String)
        ensures
            r@ == diff_text(*self),
    {
        if self.is_empty() {
            return String::from_str("no changes");
        }
        let mut parts: Vec<String> = Vec::new();
        let ghost p0 = vs(parts@);
        add_part(&mut parts, "+tools: ", &self.added_tools);
        add_part(&mut parts, "-tools: ", &self.removed_tools);
        add_part(&mut parts, "~tools: ", &self.changed_tools);
        add_part(&mut parts, "+children: ", &self.added_children);
        add_part(&mut parts, "-children: ", &self.removed_children);
        add_part(&mut parts, "~children: ", &self.changed_children);
        proof {
            assert(vs(parts@) =~= diff_parts(*self));
        }
        join(&parts, "; ")
    }
}

/// `items` joined by `sep`.
pub open spec fn joined(items: Seq<Seq<char>>, sep: Seq<char>) -> Seq<char>
    decreases items.len(),
{
    if items.len() == 0 {
        Seq::empty()
    } else if items.len() == 1 {
        items[0]
    } else {
        joined(items.drop_last(), sep) + sep + items.last()
    }
}

pub open spec fn part(label: Seq<char>, names: Seq<String>) -> Seq<Seq<char>> {
    if names.len() == 0 {
        Seq::empty()
    } else {
        seq![label + joined(view_strings(names), ", "@)]
    }
}

pub open spec fn diff_parts(d: ConfigDiff) -> Seq<Seq<char>> {
    part("+tools: "@, d.added_tools@) + part("-tools: "@, d.removed_tools@) + part(
        "~tools: "@,
        d.changed_tools@,
    ) + part("+children: "@, d.added_children@) + part("-children: "@, d.removed_children@) + part(
        "~children: "@,
        d.changed_children@,
    )
}

pub open spec fn diff_text(d: ConfigDiff) -> Seq<char> {
    if d.spec_is_empty() {
        "no changes"@
    } else {
        joined(diff_parts(d), "; "@)
    }
}

/// `items` joined by `sep`.
pub fn join(items: &Vec<String>, sep: &str) -> (r: String)
    ensures
        r@ == joined(vs(items@), sep@),
{
    let mut s = String::new();
    let mut i: usize = 0;
    while i < items.len()
        invariant
            i <= items.len(),
            s@ == joined(vs(items@.take(i as int)), sep@),
        decreases items.len() - i,
    {
        if i > 0 {
            s.append(sep);
        }
        s.append(items[i].as_str());
        proof {
            let t = vs(items@.take(i + 1));
            assert(t.drop_last() =~= vs(items@.take(i as int)));
            if i == 0 {
                assert(s@ =~= joined(t, sep@));
            } else {
                assert(s@ =~= joined(t, sep@));
            }
        }
        i = i + 1;
    }
    proof {
        assert(items@.take(items.len() as int) =~= items@);
    }
    s
}

fn add_part(parts: &mut Vec<String>, label: &str, names: &Vec<String>)
    ensures
        vs(final(parts)@) == vs(old(parts)@) + part(label@, names@),
{
    if names.len() > 0 {
        let j = join(names, ", ");
        let mut p = String::from_str(label);
        p.append(j.as_str());
        parts.push(p);
    }
    proof {
        assert(vs(parts@) =~= vs(old(parts)@) + part(label@, names@));
    }
}

pub open spec fn has_tool(tools: Seq<ToolConfig>, name: Seq<char>) -> bool {
    exists|j: int| 0 <= j < tools.len() && tools[j].name@ == name
}

pub open spec fn has_service(svcs: Seq<ServiceConfig>, name: Seq<char>) -> bool {
    exists|j: int| 0 <= j < svcs.len() && svcs[j].name@ == name
}

/// Names (each once, in `new`'s order) of the tools of `new[..n]` that `old` lacks.
pub open spec fn added_tools(old: Seq<ToolConfig>, new: Seq<ToolConfig>, n: int) -> Seq<Seq<char>>
    decreases n,
{
    if n <= 0 || n > new.len() {
        Seq::empty()
    } else {
        added_tools(old, new, n - 1) + (if !tool_name_seen(new, n - 1) && !has_tool(old, new[n - 1].name@) {
            seq![new[n - 1].name@]
        } else {
            Seq::empty()
        })
    }
}

/// Names (each once, in `old`'s order) of the tools of `old[..n]` that are
/// in `new` with a different definition (the first tool of a name counts).
pub open spec fn changed_tools(old: Seq<ToolConfig>, new: Seq<ToolConfig>, n: int) -> Seq<Seq<char>>
    decreases n,
{
    if n <= 0 || n > old.len() {
        Seq::empty()
    } else {
        changed_tools(old, new, n - 1) + (if !tool_name_seen(old, n - 1) && has_tool(new, old[n - 1].name@)
            && !same_tool(old[n - 1], new[find_tool(new, old[n - 1].name@).unwrap()]) {
            seq![old[n - 1].name@]
        } else {
            Seq::empty()
        })
    }
}

pub open spec fn find_service_from(svcs: Seq<ServiceConfig>, name: Seq<char>, i: int) -> Option<int>
    decreases svcs.len() - i,
{
    if i < 0 || i >= svcs.len() {
        None
    } else if svcs[i].name@ == name {
        Some(i)
    } else {
        find_service_from(svcs, name, i + 1)
    }
}

pub open spec fn find_service(svcs: Seq<ServiceConfig>, name: Seq<char>) -> Option<int> {
    find_service_from(svcs, name, 0)
}

pub open spec fn added_services(old: Seq<ServiceConfig>, new: Seq<ServiceConfig>, n: int) -> Seq<Seq<char>>
    decreases n,
{
    if n <= 0 || n > new.len() {
        Seq::empty()
    } else {
        added_services(old, new, n - 1) + (if !service_name_seen(new, n - 1) && !has_service(
            old,
            new[n - 1].name@,
        ) {
            seq![new[n - 1].name@]
        } else {
            Seq::empty()
        })
    }
}

pub open spec fn changed_services(old: Seq<ServiceConfig>, new: Seq<ServiceConfig>, n: int) -> Seq<Seq<char>>
    decreases n,
{
    if n <= 0 || n > old.len() {
        Seq::empty()
    } else {
        changed_services(old, new, n - 1) + (if !service_name_seen(old, n - 1) && has_service(
            new,
            old[n - 1].name@,
        ) && !same_service(old[n - 1], new[find_service(new, old[n - 1].name@).unwrap()]) {
            seq![old[n - 1].name@]
        } else {
            Seq::empty()
        })
    }
}

proof fn lemma_find_tool_some(tools: Seq<ToolConfig>, name: Seq<char>, i: int)
    requires
        0 <= i,
        exists|j: int| i <= j < tools.len() && tools[j].name@ == name,
    ensures
        find_tool_from(tools, name, i) matches Some(k) && i <= k < tools.len() && tools[k].name@ == name,
    decreases tools.len() - i,
{
    if tools[i].name@ != name {
        lemma_find_tool_some(tools, name, i + 1);
    }
}

proof fn lemma_find_tool_none(tools: Seq<ToolConfig>, name: Seq<char>, i: int)
    requires
        0 <= i,
        find_tool_from(tools, name, i) is None,
    ensures
        forall|j: int| i <= j < tools.len() ==> tools[j].name@ != name,
    decreases tools.len() - i,
{
    if i < tools.len() {
        lemma_find_tool_none(tools, name, i + 1);
    }
}

proof fn lemma_find_service_some(svcs: Seq<ServiceConfig>, name: Seq<char>, i: int)
    requires
        0 <= i,
        exists|j: int| i <= j < svcs.len() && svcs[j].name@ == name,
    ensures
        find_service_from(svcs, name, i) matches Some(k) && i <= k < svcs.len() && svcs[k].name@ == name,
    decreases svcs.len() - i,
{
    if svcs[i].name@ != name {
        lemma_find_service_some(svcs, name, i + 1);
    }
}

fn find_service_index(svcs: &Vec<ServiceConfig>, name: &String) -> (r: Option<usize>)
    ensures
        match r {
            Some(k) => find_service(svcs@, name@) == Some(k as int) && k < svcs@.len(),
            None => find_service(svcs@, name@) is None,
        },
{
    let mut i: usize = 0;
    while i < svcs.len()
        invariant
            i <= svcs.len(),
            find_service(svcs@, name@) == find_service_from(svcs@, name@, i as int),
        decreases svcs.len() - i,
    {
        if svcs[i].name == *name {
            return Some(i);
        }
        i = i + 1;
    }
    None
}

fn tool_seen_before(tools: &Vec<ToolConfig>, i: usize) -> (r: bool)
    requires
        i < tools.len(),
    ensures
        r == tool_name_seen(tools@, i as int),
{
    let mut j: usize = 0;
    while j < i
        invariant
            j <= i < tools.len(),
            forall|k: int| 0 <= k < j ==> tools@[k].name@ != tools@[i as int].name@,
        decreases i - j,
    {
        if tools[j].name == tools[i].name {
            return true;
        }
        j = j + 1;
    }
    false
}

fn service_seen_before(svcs: &Vec<ServiceConfig>, i: usize) -> (r: bool)
    requires
        i < svcs.len(),
    ensures
        r == service_name_seen(svcs@, i as int),
{
    let mut j: usize = 0;
    while j < i
        invariant
            j <= i < svcs.len(),
            forall|k: int| 0 <= k < j ==> svcs@[k].name@ != svcs@[i as int].name@,
        decreases i - j,
    {
        if svcs[j].name == svcs[i].name {
            return true;
        }
        j = j + 1;
    }
    false
}

/// Tools and services added, removed and changed from `old` to `new`.
pub open spec fn diff_spec(old: McpifyConfig, new: McpifyConfig, d: ConfigDiff) -> bool {
    &&& vs(d.added_tools@) == added_tools(old.tools@, new.tools@, new.tools@.len() as int)
    &&& vs(d.removed_tools@) == added_tools(new.tools@, old.tools@, old.tools@.len() as int)
    &&& vs(d.changed_tools@) == changed_tools(old.tools@, new.tools@, old.tools@.len() as int)
    &&& vs(d.added_children@) == added_services(old.services@, new.services@, new.services@.len() as int)
    &&& vs(d.removed_children@) == added_services(new.services@, old.services@, old.services@.len() as int)
    &&& vs(d.changed_children@) == changed_services(old.services@, new.services@, old.services@.len() as int)
}

fn tools_added(old: &Vec<ToolConfig>, new: &Vec<ToolConfig>) -> (r: Vec<String>)
    ensures
        vs(r@) == added_tools(old@, new@, new@.len() as int),
{
    let mut out: Vec<String> = Vec::new();
    let mut i: usize = 0;
    while i < new.len()
        invariant
            i <= new.len(),
            vs(out@) == added_tools(old@, new@, i as int),
        decreases new.len() - i,
    {
        let seen = tool_seen_before(new, i);
        let found = find_tool_index(old, &new[i].name);
        proof {
            if found is None {
                lemma_find_tool_none(old@, new@[i as int].name@, 0);
            } else {
                crate::config::diff::lemma_find_some_means_has(old@, new@[i as int].name@);
            }
        }
        if !seen && found.is_none() {
            out.push(new[i].name.clone());
        }
        proof {
            assert(vs(out@) =~= added_tools(old@, new@, i + 1));
        }
        i = i + 1;
    }
    out
}

proof fn lemma_find_some_means_has(tools: Seq<ToolConfig>, name: Seq<char>)
    requires
        find_tool(tools, name) is Some,
    ensures
        has_tool(tools, name),
{
    if !has_tool(tools, name) {
        lemma_no_find(tools, name, 0);
    }
}

proof fn lemma_no_find(tools: Seq<ToolConfig>, name: Seq<char>, i: int)
    requires
        0 <= i,
        !has_tool(tools, name),
    ensures
        find_tool_from(tools, name, i) is None,
    decreases tools.len() - i,
{
    if i < tools.len() {
        lemma_no_find(tools, name, i + 1);
    }
}

fn tools_changed(old: &Vec<ToolConfig>, new: &Vec<ToolConfig>) -> (r: Vec<String>)
    ensures
        vs(r@) == changed_tools(old@, new@, old@.len() as int),
{
    let mut out: Vec<String> = Vec::new();
    let mut i: usize = 0;
    while i < old.len()
        invariant
            i <= old.len(),
            vs(out@) == changed_tools(old@, new@, i as int),
        decreases old.len() - i,
    {
        let seen = tool_seen_before(old, i);
        let found = find_tool_index(new, &old[i].name);
        match found {
            None => {
                proof {
                    lemma_find_tool_none(new@, old@[i as int].name@, 0);
                }
            },
            Some(k) => {
                proof {
                    lemma_find_some_means_has(new@, old@[i as int].name@);
                }
                if !seen && !tool_equal(&old[i], &new[k]) {
                    out.push(old[i].name.clone());
                }
            },
        }
        proof {
            assert(vs(out@) =~= changed_tools(old@, new@, i + 1));
        }
        i = i + 1;
    }
    out
}

proof fn lemma_service_find_some_means_has(svcs: Seq<ServiceConfig>, name: Seq<char>, i: int)
    requires
        0 <= i,
        find_service_from(svcs, name, i) is Some,
    ensures
        has_service(svcs, name),
    decreases svcs.len() - i,
{
    if i < svcs.len() && svcs[i].name@ != name {
        lemma_service_find_some_means_has(svcs, name, i + 1);
    }
}

proof fn lemma_service_find_none(svcs: Seq<ServiceConfig>, name: Seq<char>, i: int)
    requires
        0 <= i,
        find_service_from(svcs, name, i) is None,
    ensures
        forall|j: int| i <= j < svcs.len() ==> svcs[j].name@ != name,
    decreases svcs.len() - i,
{
    if i < svcs.len() {
        lemma_service_find_none(svcs, name, i + 1);
    }
}

fn services_added(old: &Vec<ServiceConfig>, new: &Vec<ServiceConfig>) -> (r: Vec<String>)
    ensures
        vs(r@) == added_services(old@, new@, new@.len() as int),
{
    let mut out: Vec<String> = Vec::new();
    let mut i: usize = 0;
    while i < new.len()
        invariant
            i <= new.len(),
            vs(out@) == added_services(old@, new@, i as int),
        decreases new.len() - i,
    {
        let seen = service_seen_before(new, i);
        let found = find_service_index(old, &new[i].name);
        proof {
            if found is None {
                lemma_service_find_none(old@, new@[i as int].name@, 0);
            } else {
                lemma_service_find_some_means_has(old@, new@[i as int].name@, 0);
            }
        }
        if !seen && found.is_none() {
            out.push(new[i].name.clone());
        }
        proof {
            assert(vs(out@) =~= added_services(old@, new@, i + 1));
        }
        i = i + 1;
    }
    out
}

fn services_changed(old: &Vec<ServiceConfig>, new: &Vec<ServiceConfig>) -> (r: Vec<String>)
    ensures
        vs(r@) == changed_services(old@, new@, old@.len() as int),
{
    let mut out: Vec<String> = Vec::new();
    let mut i: usize = 0;
    while i < old.len()
        invariant
            i <= old.len(),
            vs(out@) == changed_services(old@, new@, i as int),
        decreases old.len() - i,
    {
        let seen = service_seen_before(old, i);
        let found = find_service_index(new, &old[i].name);
        match found {
            None => {
                proof {
                    lemma_service_find_none(new@, old@[i as int].name@, 0);
                }
            },
            Some(k) => {
                proof {
                    lemma_service_find_some_means_has(new@, old@[i as int].name@, 0);
                }
                if !seen && !service_equal(&old[i], &new[k]) {
                    out.push(old[i].name.clone());
                }
            },
        }
        proof {
            assert(vs(out@) =~= changed_services(old@, new@, i + 1));
        }
        i = i + 1;
    }
    out
}

/// The tools and services (children) added, removed and changed from `old`
/// to `new`. A name counts once; a tool or service is changed when its first
/// definition in `old` differs from its first definition in `new`.
pub fn diff_configs(old: &McpifyConfig, new: &McpifyConfig) -> (r: ConfigDiff)
    ensures
        diff_spec(*old, *new, r),
{
    ConfigDiff {
        added_tools: tools_added(&old.tools, &new.tools),
        removed_tools: tools_added(&new.tools, &old.tools),
        changed_tools: tools_changed(&old.tools, &new.tools),
        added_children: services_added(&old.services, &new.services),
        removed_children: services_added(&new.services, &old.services),
        changed_children: services_changed(&old.services, &new.services),
    }
}

proof fn lemma_added_self(t: Seq<ToolConfig>, n: int)
    requires
        0 <= n <= t.len(),
    ensures
        added_tools(t, t, n) == Seq::<Seq<char>>::empty(),
    decreases n,
{
    if n > 0 {
        lemma_added_self(t, n - 1);
        assert(has_tool(t, t[n - 1].name@));
        assert(added_tools(t, t, n) =~= Seq::<Seq<char>>::empty());
    }
}

proof fn lemma_find_first(t: Seq<ToolConfig>, i: int, j: int)
    requires
        0 <= j <= i < t.len(),
        !tool_name_seen(t, i),
    ensures
        find_tool_from(t, t[i].name@, j) == Some(i),
    decreases i - j,
{
    if j < i {
        assert(t[j].name@ != t[i].name@);
        lemma_find_first(t, i, j + 1);
    }
}

proof fn lemma_changed_self(t: Seq<ToolConfig>, n: int)
    requires
        0 <= n <= t.len(),
    ensures
        changed_tools(t, t, n) == Seq::<Seq<char>>::empty(),
    decreases n,
{
    if n > 0 {
        lemma_changed_self(t, n - 1);
        if !tool_name_seen(t, n - 1) {
            lemma_find_first(t, n - 1, 0);
        }
        assert(changed_tools(t, t, n) =~= Seq::<Seq<char>>::empty());
    }
}

proof fn lemma_added_services_self(t: Seq<ServiceConfig>, n: int)
    requires
        0 <= n <= t.len(),
    ensures
        added_services(t, t, n) == Seq::<Seq<char>>::empty(),
    decreases n,
{
    if n > 0 {
        lemma_added_services_self(t, n - 1);
        assert(has_service(t, t[n - 1].name@));
        assert(added_services(t, t, n) =~= Seq::<Seq<char>>::empty());
    }
}

proof fn lemma_find_service_first(t: Seq<ServiceConfig>, i: int, j: int)
    requires
        0 <= j <= i < t.len(),
        !service_name_seen(t, i),
    ensures
        find_service_from(t, t[i].name@, j) == Some(i),
    decreases i - j,
{
    if j < i {
        assert(t[j].name@ != t[i].name@);
        lemma_find_service_first(t, i, j + 1);
    }
}

proof fn lemma_changed_services_self(t: Seq<ServiceConfig>, n: int)
    requires
        0 <= n <= t.len(),
    ensures
        changed_services(t, t, n) == Seq::<Seq<char>>::empty(),
    decreases n,
{
    if n > 0 {
        lemma_changed_services_self(t, n - 1);
        if !service_name_seen(t, n - 1) {
            lemma_find_service_first(t, n - 1, 0);
        }
        assert(changed_services(t, t, n) =~= Seq::<Seq<char>>::empty());
    }
}

/// A service listed as added to `old` is not in `old`.
pub proof fn lemma_added_service_absent(old: Seq<ServiceConfig>, new: Seq<ServiceConfig>, n: int, k: Seq<char>)
    requires
        0 <= n <= new.len(),
        added_services(old, new, n).contains(k),
    ensures
        !has_service(old, k),
    decreases n,
{
    if n > 0 {
        let prev = added_services(old, new, n - 1);
        let whole = added_services(old, new, n);
        let i = choose|i: int| 0 <= i < whole.len() && whole[i] == k;
        if i < prev.len() {
            assert(prev[i] == k);
            lemma_added_service_absent(old, new, n - 1, k);
        } else {
            assert(whole[i] == new[n - 1].name@);
        }
    }
}

/// A service listed as changed has different first definitions in the two
/// lists.
pub proof fn lemma_changed_service_differs(old: Seq<ServiceConfig>, new: Seq<ServiceConfig>, n: int, k: Seq<char>)
    requires
        0 <= n <= old.len(),
        changed_services(old, new, n).contains(k),
    ensures
        find_service(old, k) matches Some(i) && find_service(new, k) matches Some(j) && !same_service(old[i], new[j]),
    decreases n,
{
    if n > 0 {
        let prev = changed_services(old, new, n - 1);
        let whole = changed_services(old, new, n);
        let i = choose|i: int| 0 <= i < whole.len() && whole[i] == k;
        if i < prev.len() {
            assert(prev[i] == k);
            lemma_changed_service_differs(old, new, n - 1, k);
        } else {
            assert(whole[i] == old[n - 1].name@);
            lemma_find_service_first(old, n - 1, 0);
            lemma_find_service_some(new, k, 0);
        }
    }
}

/// A service found by name is in the list.
pub proof fn lemma_found_service_present(svcs: Seq<ServiceConfig>, k: Seq<char>)
    requires
        find_service(svcs, k) is Some,
    ensures
        has_service(svcs, k),
{
    lemma_service_find_some_means_has(svcs, k, 0);
}

/// The names listed as added from `old` to `new[..n]` are those of `new[..n]`
/// that `old` lacks, each once.
proof fn lemma_added_tools_set(old: Seq<ToolConfig>, new: Seq<ToolConfig>, n: int)
    requires
        0 <= n <= new.len(),
    ensures
        forall|k: Seq<char>|
            #[trigger] added_tools(old, new, n).contains(k) <==> (exists|j: int| 0 <= j < n && #[trigger] new[j].name@ == k)
                && !has_tool(old, k),
        added_tools(old, new, n).no_duplicates(),
    decreases n,
{
    if n > 0 {
        lemma_added_tools_set(old, new, n - 1);
        let prev = added_tools(old, new, n - 1);
        let whole = added_tools(old, new, n);
        let k0 = new[n - 1].name@;
        let take = !tool_name_seen(new, n - 1) && !has_tool(old, k0);
        assert(whole == prev + (if take { seq![k0] } else { Seq::<Seq<char>>::empty() }));
        assert forall|k: Seq<char>|
            #[trigger] whole.contains(k) <==> (exists|j: int| 0 <= j < n && #[trigger] new[j].name@ == k) && !has_tool(
                old,
                k,
            ) by {
            if whole.contains(k) {
                let i = choose|i: int| 0 <= i < whole.len() && whole[i] == k;
                if i < prev.len() {
                    assert(prev.contains(k));
                    let j = choose|j: int| 0 <= j < n - 1 && #[trigger] new[j].name@ == k;
                    assert(new[j].name@ == k);
                } else {
                    assert(k == k0);
                    assert(new[n - 1].name@ == k);
                }
            }
            if (exists|j: int| 0 <= j < n && #[trigger] new[j].name@ == k) && !has_tool(old, k) {
                let j = choose|j: int| 0 <= j < n && #[trigger] new[j].name@ == k;
                if j < n - 1 {
                    assert(new[j].name@ == k);
                    assert(prev.contains(k));
                    let i = choose|i: int| 0 <= i < prev.len() && prev[i] == k;
                    assert(whole[i] == k);
                } else if tool_name_seen(new, n - 1) {
                    let j2 = choose|j2: int| 0 <= j2 < n - 1 && #[trigger] new[j2].name@ == new[n - 1].name@;
                    assert(new[j2].name@ == k);
                    assert(prev.contains(k));
                    let i = choose|i: int| 0 <= i < prev.len() && prev[i] == k;
                    assert(whole[i] == k);
                } else {
                    assert(whole[prev.len() as int] == k);
                }
            }
        }
        if take {
            if prev.contains(k0) {
                let j = choose|j: int| 0 <= j < n - 1 && #[trigger] new[j].name@ == k0;
                assert(tool_name_seen(new, n - 1));
            }
            assert forall|a: int, b: int| 0 <= a < whole.len() && 0 <= b < whole.len() && a != b implies whole[a]
                != whole[b] by {
                if a < prev.len() && b < prev.len() {
                } else if a < prev.len() {
                    assert(prev.contains(prev[a]));
                } else if b < prev.len() {
                    assert(prev.contains(prev[b]));
                }
            }
        } else {
            assert(whole =~= prev);
        }
    }
}

/// The names listed as added from `old` to `new[..n]` are those of `new[..n]`
/// that `old` lacks, each once.
proof fn lemma_added_services_set(old: Seq<ServiceConfig>, new: Seq<ServiceConfig>, n: int)
    requires
        0 <= n <= new.len(),
    ensures
        forall|k: Seq<char>|
            #[trigger] added_services(old, new, n).contains(k) <==> (exists|j: int| 0 <= j < n && #[trigger] new[j].name@ == k)
                && !has_service(old, k),
        added_services(old, new, n).no_duplicates(),
    decreases n,
{
    if n > 0 {
        lemma_added_services_set(old, new, n - 1);
        let prev = added_services(old, new, n - 1);
        let whole = added_services(old, new, n);
        let k0 = new[n - 1].name@;
        let take = !service_name_seen(new, n - 1) && !has_service(old, k0);
        assert(whole == prev + (if take { seq![k0] } else { Seq::<Seq<char>>::empty() }));
        assert forall|k: Seq<char>|
            #[trigger] whole.contains(k) <==> (exists|j: int| 0 <= j < n && #[trigger] new[j].name@ == k) && !has_service(
                old,
                k,
            ) by {
            if whole.contains(k) {
                let i = choose|i: int| 0 <= i < whole.len() && whole[i] == k;
                if i < prev.len() {
                    assert(prev.contains(k));
                    let j = choose|j: int| 0 <= j < n - 1 && #[trigger] new[j].name@ == k;
                    assert(new[j].name@ == k);
                } else {
                    assert(k == k0);
                    assert(new[n - 1].name@ == k);
                }
            }
            if (exists|j: int| 0 <= j < n && #[trigger] new[j].name@ == k) && !has_service(old, k) {
                let j = choose|j: int| 0 <= j < n && #[trigger] new[j].name@ == k;
                if j < n - 1 {
                    assert(new[j].name@ == k);
                    assert(prev.contains(k));
                    let i = choose|i: int| 0 <= i < prev.len() && prev[i] == k;
                    assert(whole[i] == k);
                } else if service_name_seen(new, n - 1) {
                    let j2 = choose|j2: int| 0 <= j2 < n - 1 && #[trigger] new[j2].name@ == new[n - 1].name@;
                    assert(new[j2].name@ == k);
                    assert(prev.contains(k));
                    let i = choose|i: int| 0 <= i < prev.len() && prev[i] == k;
                    assert(whole[i] == k);
                } else {
                    assert(whole[prev.len() as int] == k);
                }
            }
        }
        if take {
            if prev.contains(k0) {
                let j = choose|j: int| 0 <= j < n - 1 && #[trigger] new[j].name@ == k0;
                assert(service_name_seen(new, n - 1));
            }
            assert forall|a: int, b: int| 0 <= a < whole.len() && 0 <= b < whole.len() && a != b implies whole[a]
                != whole[b] by {
                if a < prev.len() && b < prev.len() {
                } else if a < prev.len() {
                    assert(prev.contains(prev[a]));
                } else if b < prev.len() {
                    assert(prev.contains(prev[b]));
                }
            }
        } else {
            assert(whole =~= prev);
        }
    }
}

/// A diff lists as added exactly the names that `new` has and `old` lacks,
/// and as removed exactly the names that `old` has and `new` lacks, each name
/// once; for tools and for services alike.
pub proof fn law_added_and_removed_are_set_differences(old: McpifyConfig, new: McpifyConfig, d: ConfigDiff)
    requires
        diff_spec(old, new, d),
    ensures
        forall|k: Seq<char>|
            #[trigger] vs(d.added_tools@).contains(k) <==> has_tool(new.tools@, k) && !has_tool(old.tools@, k),
        forall|k: Seq<char>|
            #[trigger] vs(d.removed_tools@).contains(k) <==> has_tool(old.tools@, k) && !has_tool(new.tools@, k),
        forall|k: Seq<char>|
            #[trigger] vs(d.added_children@).contains(k) <==> has_service(new.services@, k) && !has_service(
                old.services@,
                k,
            ),
        forall|k: Seq<char>|
            #[trigger] vs(d.removed_children@).contains(k) <==> has_service(old.services@, k) && !has_service(
                new.services@,
                k,
            ),
        vs(d.added_tools@).no_duplicates(),
        vs(d.removed_tools@).no_duplicates(),
        vs(d.added_children@).no_duplicates(),
        vs(d.removed_children@).no_duplicates(),
{
    lemma_added_tools_set(old.tools@, new.tools@, new.tools@.len() as int);
    lemma_added_tools_set(new.tools@, old.tools@, old.tools@.len() as int);
    lemma_added_services_set(old.services@, new.services@, new.services@.len() as int);
    lemma_added_services_set(new.services@, old.services@, old.services@.len() as int);
}

/// The first tool named `k` at or after `j`, if any, is at `i`, and none
/// before it from `j` on has that name.
proof fn lemma_find_tool_first(t: Seq<ToolConfig>, k: Seq<char>, j: int, i: int)
    requires
        0 <= j,
        find_tool_from(t, k, j) == Some(i),
    ensures
        j <= i < t.len(),
        t[i].name@ == k,
        forall|x: int| j <= x < i ==> t[x].name@ != k,
    decreases t.len() - j,
{
    if j < t.len() && t[j].name@ != k {
        lemma_find_tool_first(t, k, j + 1, i);
    }
}

proof fn lemma_find_service_first_of(t: Seq<ServiceConfig>, k: Seq<char>, j: int, i: int)
    requires
        0 <= j,
        find_service_from(t, k, j) == Some(i),
    ensures
        j <= i < t.len(),
        t[i].name@ == k,
        forall|x: int| j <= x < i ==> t[x].name@ != k,
    decreases t.len() - j,
{
    if j < t.len() && t[j].name@ != k {
        lemma_find_service_first_of(t, k, j + 1, i);
    }
}

/// A tool listed as changed has different first definitions in the two lists.
proof fn lemma_changed_tool_differs(old: Seq<ToolConfig>, new: Seq<ToolConfig>, n: int, k: Seq<char>)
    requires
        0 <= n <= old.len(),
        changed_tools(old, new, n).contains(k),
    ensures
        find_tool(old, k) matches Some(i) && find_tool(new, k) matches Some(j) && !same_tool(old[i], new[j]),
    decreases n,
{
    if n > 0 {
        let prev = changed_tools(old, new, n - 1);
        let whole = changed_tools(old, new, n);
        let i = choose|i: int| 0 <= i < whole.len() && whole[i] == k;
        if i < prev.len() {
            assert(prev[i] == k);
            lemma_changed_tool_differs(old, new, n - 1, k);
        } else {
            assert(whole[i] == old[n - 1].name@);
            lemma_find_first(old, n - 1, 0);
            lemma_find_tool_some(new, k, 0);
        }
    }
}

/// A tool whose first definitions differ, taken at its first place in `old`,
/// is listed as changed.
proof fn lemma_differing_tool_listed(old: Seq<ToolConfig>, new: Seq<ToolConfig>, n: int, i: int)
    requires
        0 <= i < n <= old.len(),
        !tool_name_seen(old, i),
        has_tool(new, old[i].name@),
        !same_tool(old[i], new[find_tool(new, old[i].name@).unwrap()]),
    ensures
        changed_tools(old, new, n).contains(old[i].name@),
    decreases n,
{
    let prev = changed_tools(old, new, n - 1);
    if i < n - 1 {
        lemma_differing_tool_listed(old, new, n - 1, i);
        let a = if !tool_name_seen(old, n - 1) && has_tool(new, old[n - 1].name@) && !same_tool(
            old[n - 1],
            new[find_tool(new, old[n - 1].name@).unwrap()],
        ) {
            seq![old[n - 1].name@]
        } else {
            Seq::empty()
        };
        lemma_concat_contains(prev, a, old[i].name@);
    } else {
        assert(changed_tools(old, new, n)[prev.len() as int] == old[i].name@);
    }
}

/// A service whose first definitions differ, taken at its first place in
/// `old`, is listed as changed.
proof fn lemma_differing_service_listed(old: Seq<ServiceConfig>, new: Seq<ServiceConfig>, n: int, i: int)
    requires
        0 <= i < n <= old.len(),
        !service_name_seen(old, i),
        has_service(new, old[i].name@),
        !same_service(old[i], new[find_service(new, old[i].name@).unwrap()]),
    ensures
        changed_services(old, new, n).contains(old[i].name@),
    decreases n,
{
    let prev = changed_services(old, new, n - 1);
    if i < n - 1 {
        lemma_differing_service_listed(old, new, n - 1, i);
        let a = if !service_name_seen(old, n - 1) && has_service(new, old[n - 1].name@) && !same_service(
            old[n - 1],
            new[find_service(new, old[n - 1].name@).unwrap()],
        ) {
            seq![old[n - 1].name@]
        } else {
            Seq::empty()
        };
        lemma_concat_contains(prev, a, old[i].name@);
    } else {
        assert(changed_services(old, new, n)[prev.len() as int] == old[i].name@);
    }
}

/// A tool that both configs define is listed as changed exactly when its
/// first definitions differ in some field: its kind, description, command,
/// arguments, directory, environment, method, url, headers, query, auth,
/// body, driver, dsn, query text, steps, timeout, dependencies, whether it is
/// enabled, input schema, retry, annotations, output or cache block.
pub proof fn law_tool_changed_iff_a_field_differs(old: McpifyConfig, new: McpifyConfig, d: ConfigDiff, k: Seq<char>)
    requires
        diff_spec(old, new, d),
        find_tool(old.tools@, k) is Some,
        find_tool(new.tools@, k) is Some,
    ensures
        ({
            let a = old.tools@[find_tool(old.tools@, k).unwrap()];
            let b = new.tools@[find_tool(new.tools@, k).unwrap()];
            vs(d.changed_tools@).contains(k) <==> {
                ||| a.tool_type != b.tool_type
                ||| a.description@ != b.description@
                ||| view_opt_string(a.command) != view_opt_string(b.command)
                ||| view_strings(a.args@) != view_strings(b.args@)
                ||| view_opt_string(a.cwd) != view_opt_string(b.cwd)
                ||| view_pairs(a.env@) != view_pairs(b.env@)
                ||| a.method != b.method
                ||| view_opt_string(a.url) != view_opt_string(b.url)
                ||| view_pairs(a.headers@) != view_pairs(b.headers@)
                ||| view_pairs(a.query_params@) != view_pairs(b.query_params@)
                ||| view_opt_auth(a.auth) != view_opt_auth(b.auth)
                ||| view_opt_string(a.body) != view_opt_string(b.body)
                ||| a.driver != b.driver
                ||| view_opt_string(a.dsn) != view_opt_string(b.dsn)
                ||| view_opt_string(a.query) != view_opt_string(b.query)
                ||| view_steps(a.steps@) != view_steps(b.steps@)
                ||| a.timeout_ms != b.timeout_ms
                ||| view_strings(a.depends_on@) != view_strings(b.depends_on@)
                ||| a.enabled != b.enabled
                ||| view_opt_schema(a.input) != view_opt_schema(b.input)
                ||| a.retry != b.retry
                ||| a.annotations != b.annotations
                ||| view_opt_output(a.output) != view_opt_output(b.output)
                ||| a.cache != b.cache
            }
        }),
{
    let i = find_tool(old.tools@, k).unwrap();
    let j = find_tool(new.tools@, k).unwrap();
    lemma_find_tool_first(old.tools@, k, 0, i);
    lemma_find_tool_first(new.tools@, k, 0, j);
    if vs(d.changed_tools@).contains(k) {
        lemma_changed_tool_differs(old.tools@, new.tools@, old.tools@.len() as int, k);
    }
    if !same_tool(old.tools@[i], new.tools@[j]) {
        assert(!tool_name_seen(old.tools@, i));
        assert(has_tool(new.tools@, k));
        lemma_differing_tool_listed(old.tools@, new.tools@, old.tools@.len() as int, i);
    }
}

/// A service that both configs define is listed as changed exactly when its
/// first definitions differ in some field: its command, arguments,
/// directory, environment, autostart, restart policy or health check.
pub proof fn law_service_changed_iff_a_field_differs(old: McpifyConfig, new: McpifyConfig, d: ConfigDiff, k: Seq<char>)
    requires
        diff_spec(old, new, d),
        find_service(old.services@, k) is Some,
        find_service(new.services@, k) is Some,
    ensures
        ({
            let a = old.services@[find_service(old.services@, k).unwrap()];
            let b = new.services@[find_service(new.services@, k).unwrap()];
            vs(d.changed_children@).contains(k) <==> {
                ||| a.command@ != b.command@
                ||| view_strings(a.args@) != view_strings(b.args@)
                ||| a.cwd@ != b.cwd@
                ||| view_pairs(a.env@) != view_pairs(b.env@)
                ||| a.autostart != b.autostart
                ||| a.restart != b.restart
                ||| view_opt_healthcheck(a.healthcheck) != view_opt_healthcheck(b.healthcheck)
            }
        }),
{
    let i = find_service(old.services@, k).unwrap();
    let j = find_service(new.services@, k).unwrap();
    lemma_find_service_first_of(old.services@, k, 0, i);
    lemma_find_service_first_of(new.services@, k, 0, j);
    if vs(d.changed_children@).contains(k) {
        lemma_changed_service_differs(old.services@, new.services@, old.services@.len() as int, k);
    }
    if !same_service(old.services@[i], new.services@[j]) {
        assert(!service_name_seen(old.services@, i));
        assert(has_service(new.services@, k));
        lemma_differing_service_listed(old.services@, new.services@, old.services@.len() as int, i);
    }
}

/// A config compared with itself shows no change.
pub proof fn diff_with_itself_is_empty(c: McpifyConfig, d: ConfigDiff)
    requires
        diff_spec(c, c, d),
    ensures
        d.spec_is_empty(),
{
    lemma_added_self(c.tools@, c.tools@.len() as int);
    lemma_changed_self(c.tools@, c.tools@.len() as int);
    lemma_added_services_self(c.services@, c.services@.len() as int);
    lemma_changed_services_self(c.services@, c.services@.len() as int);
}

/// Diffing the other way round swaps what was added and what was removed.
pub proof fn diff_reversed_swaps_added_and_removed(a: McpifyConfig, b: McpifyConfig, ab: ConfigDiff, ba: ConfigDiff)
    requires
        diff_spec(a, b, ab),
        diff_spec(b, a, ba),
    ensures
        vs(ab.added_tools@) == vs(ba.removed_tools@),
        vs(ab.removed_tools@) == vs(ba.added_tools@),
        vs(ab.added_children@) == vs(ba.removed_children@),
        vs(ab.removed_children@) == vs(ba.added_children@),
{
}

} // verus!
