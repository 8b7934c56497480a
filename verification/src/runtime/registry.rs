//! The table of tools the server offers, kept in name order.
use crate::config::copy::copy_tool;
use crate::config::model::{same_tool, McpifyConfig, ToolConfig};
use crate::table::{Named, NamedTable};
use crate::text::precedes;
use vstd::prelude::*;

verus! {

#[derive(Debug, PartialEq, Eq)]
pub enum ToolAvailability {
    Enabled,
    Disabled,
    BlockedByDependency(String),
}

pub struct ToolEntry {
    pub config: ToolConfig,
    pub availability: ToolAvailability,
}

impl Named for ToolEntry {
    open spec fn key(&self) -> Seq<char> {
        self.config.name@
    }

    fn key_str(&self) -> (r: &str) {
        self.config.name.as_str()
    }
}

/// A tool is offered as enabled unless its config switches it off.
pub open spec fn availability_for(enabled: bool) -> ToolAvailability {
    if enabled {
        ToolAvailability::Enabled
    } else {
        ToolAvailability::Disabled
    }
}

pub open spec fn entry_for(tool: ToolConfig) -> ToolEntry {
    ToolEntry { config: tool, availability: availability_for(tool.enabled) }
}

/// What `add(tool)` makes of a registry.
pub open spec fn with_tool(m: Map<Seq<char>, ToolEntry>, tool: ToolConfig) -> Map<Seq<char>, ToolEntry> {
    m.insert(tool.name@, entry_for(tool))
}

/// Index of the last tool named `k` (`-1` when there is none).
pub open spec fn last_named(s: Seq<ToolConfig>, k: Seq<char>) -> int
    decreases s.len(),
{
    if s.len() == 0 {
        -1
    } else if s.last().name@ == k {
        s.len() - 1
    } else {
        last_named(s.drop_last(), k)
    }
}

pub proof fn lemma_last_named_bounds(s: Seq<ToolConfig>, k: Seq<char>)
    ensures
        -1 <= last_named(s, k) < s.len(),
        last_named(s, k) >= 0 ==> s[last_named(s, k)].name@ == k,
        last_named(s, k) < 0 <==> forall|i: int| 0 <= i < s.len() ==> #[trigger] s[i].name@ != k,
    decreases s.len(),
{
    if s.len() > 0 {
        lemma_last_named_bounds(s.drop_last(), k);
        if s.last().name@ != k {
            assert forall|i: int| 0 <= i < s.len() - 1 implies #[trigger] s[i].name@ == s.drop_last()[i].name@ by {}
        }
    }
}

pub struct ToolRegistry {
    tools: NamedTable<ToolEntry>,
}

impl View for ToolRegistry {
    type V = Map<Seq<char>, ToolEntry>;

    closed spec fn view(&self) -> Map<Seq<char>, ToolEntry> {
        self.tools@
    }
}

impl ToolRegistry {
    /// An empty registry.
    pub fn new() -> (r: Self)
        ensures
            r@ == Map::<Seq<char>, ToolEntry>::empty(),
    {
        ToolRegistry { tools: NamedTable::new() }
    }

    /// The tool named `name`.
    pub fn get(&self, name: &str) -> (r: Option<&ToolEntry>)
        ensures
            match r {
                Some(e) => self@.contains_key(name@) && *e == self@[name@],
                None => !self@.contains_key(name@),
            },
    {
        self.tools.get(name)
    }

    /// Every tool, in name order.
    pub fn list(&self) -> (r: Vec<&ToolEntry>)
        ensures
            self@.dom().finite(),
            r@.len() == self@.dom().len(),
            forall|i: int|
                0 <= i < r@.len() ==> self@.contains_key(#[trigger] r@[i].config.name@) && *r@[i]
                    == self@[r@[i].config.name@],
            forall|k: Seq<char>| #[trigger]
                self@.contains_key(k) ==> exists|i: int| 0 <= i < r@.len() && #[trigger] r@[i].config.name@ == k,
            forall|i: int, j: int|
                0 <= i < j < r@.len() ==> precedes(#[trigger] r@[i].config.name@, #[trigger] r@[j].config.name@),
    {
        let r = self.tools.list();
        proof {
            assert forall|i: int| 0 <= i < r@.len() implies self@.contains_key(#[trigger] r@[i].config.name@)
                && *r@[i] == self@[r@[i].config.name@] by {
                assert(r@[i].key() == r@[i].config.name@);
            }
            assert forall|i: int, j: int| 0 <= i < j < r@.len() implies precedes(
                #[trigger] r@[i].config.name@,
                #[trigger] r@[j].config.name@,
            ) by {
                assert(precedes(r@[i].key(), r@[j].key()));
            }
            assert forall|k: Seq<char>| #[trigger] self@.contains_key(k) implies exists|i: int|
                0 <= i < r@.len() && #[trigger] r@[i].config.name@ == k by {
                let i = choose|i: int| 0 <= i < r@.len() && #[trigger] r@[i].key() == k;
                assert(r@[i].config.name@ == k);
            }
        }
        r
    }

    /// Adds `tool`, replacing any tool of the same name.
    pub fn add(&mut self, tool: ToolConfig)
        ensures
            final(self)@ == with_tool(old(self)@, tool),
    {
        let availability = if tool.enabled {
            ToolAvailability::Enabled
        } else {
            ToolAvailability::Disabled
        };
        self.tools.insert(ToolEntry { config: tool, availability });
    }

    /// Takes out the tool named `name`, if there is one.
    pub fn remove(&mut self, name: &str) -> (r: Option<ToolEntry>)
        ensures
            r == (if old(self)@.contains_key(name@) {
                Some(old(self)@[name@])
            } else {
                None::<ToolEntry>
            }),
            final(self)@ == old(self)@.remove(name@),
    {
        self.tools.remove(name)
    }

    /// Sets how the tool named `name` is offered; any other name changes nothing.
    pub fn set_availability(&mut self, name: &str, availability: ToolAvailability)
        ensures
            old(self)@.contains_key(name@) ==> final(self)@ == old(self)@.insert(
                name@,
                ToolEntry { config: old(self)@[name@].config, availability },
            ),
            !old(self)@.contains_key(name@) ==> final(self)@ == old(self)@,
    {
        let ghost before = self@;
        match self.tools.remove(name) {
            Some(mut e) => {
                e.availability = availability;
                self.tools.insert(e);
                proof {
                    assert(self@ =~= before.insert(name@, ToolEntry { config: before[name@].config, availability }));
                }
            },
            None => {
                proof {
                    assert(self@ =~= before);
                }
            },
        }
    }

    /// A registry of the configured tools; of two tools with one name, the
    /// later one counts.
    pub fn from_config(config: &McpifyConfig) -> (r: Self)
        ensures
            forall|k: Seq<char>|
                #![trigger r@.contains_key(k)]
                r@.contains_key(k) <==> exists|i: int| 0 <= i < config.tools@.len() && #[trigger] config.tools@[i].name@ == k,
            forall|k: Seq<char>|
                #![trigger r@.contains_key(k)]
                r@.contains_key(k) <==> last_named(config.tools@, k) >= 0,
            forall|k: Seq<char>|
                #[trigger] r@.contains_key(k) ==> same_tool(r@[k].config, config.tools@[last_named(config.tools@, k)])
                    && r@[k].availability == availability_for(config.tools@[last_named(config.tools@, k)].enabled),
    {
        let tools = &config.tools;
        let mut r = ToolRegistry::new();
        let mut i: usize = 0;
        while i < tools.len()
            invariant
                i <= tools@.len(),
                forall|k: Seq<char>| #[trigger] r@.contains_key(k) <==> last_named(tools@.take(i as int), k) >= 0,
                forall|k: Seq<char>|
                    #[trigger] r@.contains_key(k) ==> same_tool(r@[k].config, tools@[last_named(tools@.take(i as int), k)])
                        && r@[k].availability == availability_for(tools@[last_named(tools@.take(i as int), k)].enabled),
            decreases tools@.len() - i,
        {
            let t = copy_tool(&tools[i]);
            r.add(t);
            proof {
                let s = tools@.take(i + 1);
                assert(s.drop_last() =~= tools@.take(i as int));
                assert forall|k: Seq<char>| k != tools@[i as int].name@ implies last_named(s, k) == last_named(
                    tools@.take(i as int),
                    k,
                ) by {}
                assert(last_named(s, tools@[i as int].name@) == i);
                assert forall|k: Seq<char>| #[trigger] r@.contains_key(k) implies last_named(s, k) >= 0 by {
                    lemma_last_named_bounds(tools@.take(i as int), k);
                }
                assert forall|k: Seq<char>| last_named(s, k) >= 0 implies #[trigger] r@.contains_key(k) by {
                    lemma_last_named_bounds(tools@.take(i as int), k);
                }
                assert forall|k: Seq<char>| #[trigger] r@.contains_key(k) implies same_tool(
                    r@[k].config,
                    tools@[last_named(s, k)],
                ) && r@[k].availability == availability_for(tools@[last_named(s, k)].enabled) by {
                    lemma_last_named_bounds(tools@.take(i as int), k);
                    lemma_last_named_bounds(s, k);
                }
            }
            i = i + 1;
        }
        proof {
            assert(tools@.take(tools@.len() as int) =~= tools@);
            assert forall|k: Seq<char>| #[trigger] r@.contains_key(k) <==> exists|j: int|
                0 <= j < config.tools@.len() && #[trigger] config.tools@[j].name@ == k by {
                lemma_last_named_bounds(tools@, k);
                if r@.contains_key(k) {
                    assert(config.tools@[last_named(tools@, k)].name@ == k);
                }
            }
        }
        r
    }
}

/// After `add(tool)`, looking up the tool's name finds exactly the new entry,
/// and every other name finds what it found before.
pub proof fn law_get_after_add(m: Map<Seq<char>, ToolEntry>, tool: ToolConfig, k: Seq<char>)
    ensures
        with_tool(m, tool).contains_key(tool.name@),
        with_tool(m, tool)[tool.name@] == entry_for(tool),
        k != tool.name@ ==> with_tool(m, tool).contains_key(k) == m.contains_key(k),
        k != tool.name@ && m.contains_key(k) ==> with_tool(m, tool)[k] == m[k],
{
}

/// After `remove(name)`, nothing is found under `name`, and every other name
/// finds what it found before.
pub proof fn law_get_after_remove(m: Map<Seq<char>, ToolEntry>, name: Seq<char>, k: Seq<char>)
    ensures
        !m.remove(name).contains_key(name),
        k != name ==> m.remove(name).contains_key(k) == m.contains_key(k),
        k != name && m.contains_key(k) ==> m.remove(name)[k] == m[k],
{
}

/// `add(tool)` lists one tool more when the name was free, and as many when
/// it replaced a tool of that name.
pub proof fn law_add_list_len(m: Map<Seq<char>, ToolEntry>, tool: ToolConfig)
    requires
        m.dom().finite(),
    ensures
        with_tool(m, tool).dom().finite(),
        with_tool(m, tool).dom().len() == m.dom().len() + (if m.contains_key(tool.name@) {
            0int
        } else {
            1int
        }),
{
    if m.contains_key(tool.name@) {
        assert(with_tool(m, tool).dom() =~= m.dom());
    }
}

/// `remove(name)` lists one tool less when a tool had that name, and as many
/// otherwise.
pub proof fn law_remove_list_len(m: Map<Seq<char>, ToolEntry>, name: Seq<char>)
    requires
        m.dom().finite(),
    ensures
        m.remove(name).dom().finite(),
        m.remove(name).dom().len() == m.dom().len() - (if m.contains_key(name) {
            1int
        } else {
            0int
        }),
{
    if !m.contains_key(name) {
        assert(m.remove(name).dom() =~= m.dom());
    }
}

/// Adding a tool under a free name and removing it again gives back the
/// registry as it was.
pub proof fn law_remove_undoes_add(m: Map<Seq<char>, ToolEntry>, tool: ToolConfig)
    requires
        !m.contains_key(tool.name@),
    ensures
        with_tool(m, tool).remove(tool.name@) == m,
{
    assert(with_tool(m, tool).remove(tool.name@) =~= m);
}

} // verus!
