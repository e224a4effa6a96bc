//! Which tools a session exposes: a tool is offered only when the principal
//! holds every capability it requires, and an offline gateway withholds the
//! tools that need the cluster runtime.
use crate::text::{str_eq, string_views};
use vstd::prelude::*;

verus! {

broadcast use vstd::string::group_string_axioms;

/// One entry of the tool table: its name, the capabilities it requires and
/// whether it needs the cluster runtime.
#[derive(Clone, Debug)]
pub struct ToolEntry {
    pub name: String,
    pub capabilities: Vec<String>,
    pub requires_runtime: bool,
}

/// Whether a principal holding `granted` may use the tool, and whether the
/// gateway offers it in its mode.
pub open spec fn tool_exposed(tool: ToolEntry, granted: Seq<Seq<char>>, offline: bool) -> bool {
    &&& forall|i: int| 0 <= i < tool.capabilities@.len() ==> granted.contains(#[trigger] tool.capabilities@[i]@)
    &&& !(offline && tool.requires_runtime)
}

/// The names of the exposed tools, in table order.
pub open spec fn exposed_names(tools: Seq<ToolEntry>, granted: Seq<Seq<char>>, offline: bool) -> Seq<Seq<char>>
    decreases tools.len(),
{
    if tools.len() == 0 {
        Seq::empty()
    } else {
        let before = exposed_names(tools.drop_last(), granted, offline);
        if tool_exposed(tools.last(), granted, offline) {
            before.push(tools.last().name@)
        } else {
            before
        }
    }
}

fn holds(granted: &Vec<String>, capability: &str) -> (r: bool)
    ensures
        r == string_views(granted@).contains(capability@),
{
    let mut i: usize = 0;
    while i < granted.len()
        invariant
            i <= granted@.len(),
            forall|k: int| 0 <= k < i ==> granted@[k]@ != capability@,
        decreases granted@.len() - i,
    {
        if str_eq(granted[i].as_str(), capability) {
            assert(string_views(granted@)[i as int] == capability@);
            return true;
        }
        i = i + 1;
    }
    assert forall|k: int| 0 <= k < granted@.len() implies string_views(granted@)[k] != capability@ by {
        assert(string_views(granted@)[k] == granted@[k]@);
    }
    false
}

/// Whether one tool is exposed to a principal holding `granted`.
pub fn is_exposed(tool: &ToolEntry, granted: &Vec<String>, offline: bool) -> (r: bool)
    ensures
        r == tool_exposed(*tool, string_views(granted@), offline),
{
    if offline && tool.requires_runtime {
        return false;
    }
    let mut i: usize = 0;
    while i < tool.capabilities.len()
        invariant
            i <= tool.capabilities@.len(),
            forall|k: int| 0 <= k < i ==> string_views(granted@).contains(#[trigger] tool.capabilities@[k]@),
        decreases tool.capabilities@.len() - i,
    {
        if !holds(granted, tool.capabilities[i].as_str()) {
            return false;
        }
        i = i + 1;
    }
    true
}

/// The names of the tools a principal holding `granted` is offered, in table
/// order; `offline` withholds the tools that need the cluster runtime.
pub fn exposed_tools(tools: &Vec<ToolEntry>, granted: &Vec<String>, offline: bool) -> (r: Vec<String>)
    ensures
        string_views(r@) == exposed_names(tools@, string_views(granted@), offline),
{
    let mut names: Vec<String> = Vec::new();
    let mut i: usize = 0;
    while i < tools.len()
        invariant
            i <= tools@.len(),
            string_views(names@) == exposed_names(tools@.take(i as int), string_views(granted@), offline),
        decreases tools@.len() - i,
    {
        let ghost before = string_views(names@);
        assert(tools@.take(i + 1).drop_last() =~= tools@.take(i as int));
        assert(tools@.take(i + 1).last() == tools@[i as int]);
        if is_exposed(&tools[i], granted, offline) {
            names.push(tools[i].name.clone());
            assert(string_views(names@) =~= before.push(tools@[i as int].name@));
        }
        i = i + 1;
    }
    assert(tools@.take(tools@.len() as int) =~= tools@);
    names
}

} // verus!
