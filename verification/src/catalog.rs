//! Catalog discovery: exact entry lookup with recovery hints, the safe default
//! control, configuration-schema pointers and public runtime controls.
use crate::actions::RuntimeEndpointView;
use crate::error::{ErrorCode, ErrorDetail, ErrorKind, ToolError, coded_invalid_request};
use crate::text::{
    debug_quote, debug_text, replace_all, replace_all_exec, sort_strings, sort_strings_exec, str_eq,
    string_views,
};
use vstd::prelude::*;

verus! {

broadcast use vstd::string::group_string_axioms;

/// Who may control a component.
#[derive(Clone, Copy, Debug, PartialEq, Eq, Structural)]
pub enum ControlClass {
    Target,
    Cell,
    Attacker,
    Oracle,
}

/// The first allowed control in the order target, cell, attacker, oracle.
pub open spec fn recommended_spec(allowed: Seq<ControlClass>) -> ControlClass {
    if allowed.contains(ControlClass::Target) {
        ControlClass::Target
    } else if allowed.contains(ControlClass::Cell) {
        ControlClass::Cell
    } else if allowed.contains(ControlClass::Attacker) {
        ControlClass::Attacker
    } else {
        ControlClass::Oracle
    }
}

fn allows(allowed: &Vec<ControlClass>, c: ControlClass) -> (r: bool)
    ensures
        r == allowed@.contains(c),
{
    let mut i: usize = 0;
    while i < allowed.len()
        invariant
            i <= allowed@.len(),
            forall|k: int| 0 <= k < i ==> allowed@[k] != c,
        decreases allowed@.len() - i,
    {
        if allowed[i] == c {
            return true;
        }
        i = i + 1;
    }
    false
}

/// The safe default control for ordinary authoring: target, else cell, else
/// attacker, else oracle, whichever the entry allows first.
pub fn recommended_control(allowed: &Vec<ControlClass>) -> (r: ControlClass)
    requires
        allowed@.len() > 0,
    ensures
        r == recommended_spec(allowed@),
        allowed@.contains(r),
{
    if allows(allowed, ControlClass::Target) {
        ControlClass::Target
    } else if allows(allowed, ControlClass::Cell) {
        ControlClass::Cell
    } else if allows(allowed, ControlClass::Attacker) {
        ControlClass::Attacker
    } else {
        assert(allowed@.contains(allowed@[0]));
        ControlClass::Oracle
    }
}

/// Configuration field names in `String` order.
pub fn sorted_fields(fields: &Vec<String>) -> (r: Vec<String>)
    ensures
        string_views(r@) == sort_strings(string_views(fields@)),
{
    sort_strings_exec(fields)
}

/// The identity of an installed catalog entry.
#[derive(Clone, Debug)]
pub struct CatalogEntryKey {
    pub id: String,
    pub version: String,
}

/// The ID and version of each entry.
pub open spec fn entry_views(es: Seq<CatalogEntryKey>) -> Seq<(Seq<char>, Seq<char>)> {
    es.map_values(|e: CatalogEntryKey| (e.id@, e.version@))
}

/// Index of the first entry with this ID and version.
pub open spec fn first_entry(es: Seq<(Seq<char>, Seq<char>)>, id: Seq<char>, version: Seq<char>) -> Option<int>
    decreases es.len(),
{
    if es.len() == 0 {
        None
    } else if es[0].0 == id && es[0].1 == version {
        Some(0)
    } else {
        match first_entry(es.drop_first(), id, version) {
            Some(k) => Some(k + 1),
            None => None,
        }
    }
}

/// Versions installed for an implementation, in catalog order.
pub open spec fn versions_of(es: Seq<(Seq<char>, Seq<char>)>, id: Seq<char>) -> Seq<Seq<char>>
    decreases es.len(),
{
    if es.len() == 0 {
        Seq::<Seq<char>>::empty()
    } else if es.last().0 == id {
        versions_of(es.drop_last(), id).push(es.last().1)
    } else {
        versions_of(es.drop_last(), id)
    }
}

/// Items joined by `, `.
pub open spec fn comma_list(items: Seq<Seq<char>>) -> Seq<char>
    decreases items.len(),
{
    if items.len() == 0 {
        Seq::<char>::empty()
    } else if items.len() == 1 {
        items[0]
    } else {
        comma_list(items.drop_last()) + seq![',', ' '] + items.last()
    }
}

/// The recovery hint of a missing catalog entry.
pub open spec fn alternatives(es: Seq<(Seq<char>, Seq<char>)>, id: Seq<char>) -> Seq<char> {
    let vs = versions_of(es, id);
    if vs.len() == 0 {
        "no versions are installed for that implementation"@
    } else {
        "available exact versions: "@ + comma_list(vs)
    }
}

proof fn lemma_first_entry_step(es: Seq<(Seq<char>, Seq<char>)>, id: Seq<char>, v: Seq<char>, i: int)
    requires
        0 <= i < es.len(),
        forall|k: int| 0 <= k < i ==> !(es[k].0 == id && es[k].1 == v),
    ensures
        es[i].0 == id && es[i].1 == v ==> first_entry(es, id, v) == Some(i),
    decreases i,
{
    if i > 0 {
        let t = es.drop_first();
        assert forall|k: int| 0 <= k < i - 1 implies !(t[k].0 == id && t[k].1 == v) by {
            assert(t[k] == es[k + 1]);
        }
        lemma_first_entry_step(t, id, v, i - 1);
    }
}

proof fn lemma_first_entry_none(es: Seq<(Seq<char>, Seq<char>)>, id: Seq<char>, v: Seq<char>)
    requires
        forall|k: int| 0 <= k < es.len() ==> !(es[k].0 == id && es[k].1 == v),
    ensures
        first_entry(es, id, v) is None,
    decreases es.len(),
{
    if es.len() > 0 {
        let t = es.drop_first();
        assert forall|k: int| 0 <= k < t.len() implies !(t[k].0 == id && t[k].1 == v) by {
            assert(t[k] == es[k + 1]);
        }
        lemma_first_entry_none(t, id, v);
    }
}

pub(crate) proof fn lemma_first_entry_bounds(es: Seq<(Seq<char>, Seq<char>)>, id: Seq<char>, version: Seq<char>)
    ensures
        first_entry(es, id, version) matches Some(k) ==> 0 <= k < es.len(),
    decreases es.len(),
{
    if es.len() > 0 {
        lemma_first_entry_bounds(es.drop_first(), id, version);
    }
}

/// The message of a missing catalog entry, with its recovery hint.
pub open spec fn entry_not_found_message(es: Seq<(Seq<char>, Seq<char>)>, id: Seq<char>, version: Seq<char>) -> Seq<char> {
    "[catalog_entry_not_found] catalog entry "@ + debug_text(id) + " version "@ + debug_text(version)
        + " was not found; no changes were made. Recovery: use one of the "@ + alternatives(es, id)
}

/// Finds the entry with exactly this ID and version; a missing entry is a
/// not-found error that lists the versions installed for the ID.
pub fn exact_catalog_entry(entries: &Vec<CatalogEntryKey>, id: &str, version: &str) -> (r: Result<
    usize,
    ToolError,
>)
    ensures
        match first_entry(entry_views(entries@), id@, version@) {
            Some(k) => r matches Ok(i) && i == k,
            None => r matches Err(e) && e.kind == ErrorKind::ResourceNotFound && e.code == Some(
                ErrorCode::CatalogEntryNotFound,
            ) && e.message@ == entry_not_found_message(entry_views(entries@), id@, version@),
        },
{
    let mut i: usize = 0;
    while i < entries.len()
        invariant
            i <= entries@.len(),
            forall|k: int| 0 <= k < i ==> !(entries@[k].id@ == id@ && entries@[k].version@ == version@),
        decreases entries@.len() - i,
    {
        proof {
            lemma_first_entry_step(entry_views(entries@), id@, version@, i as int);
        }
        if str_eq(entries[i].id.as_str(), id) && str_eq(entries[i].version.as_str(), version) {
            return Ok(i);
        }
        i = i + 1;
    }
    proof {
        lemma_first_entry_none(entry_views(entries@), id@, version@);
    }
    let mut listed = String::new();
    let mut count: usize = 0;
    let mut j: usize = 0;
    while j < entries.len()
        invariant
            j <= entries@.len(),
            count <= j,
            versions_of(entry_views(entries@).take(j as int), id@).len() == count,
            listed@ == comma_list(versions_of(entry_views(entries@).take(j as int), id@)),
        decreases entries@.len() - j,
    {
        assert(entry_views(entries@).take(j + 1).drop_last() =~= entry_views(entries@).take(j as int));
        assert(entry_views(entries@).take(j + 1).last() == entry_views(entries@)[j as int]);
        let ghost vs = versions_of(entry_views(entries@).take(j as int), id@);
        if str_eq(entries[j].id.as_str(), id) {
            if count > 0 {
                crate::text::push_char(&mut listed, ',');
                crate::text::push_char(&mut listed, ' ');
            }
            listed.append(entries[j].version.as_str());
            count = count + 1;
            assert(versions_of(entry_views(entries@).take(j + 1), id@) == vs.push(entries@[j as int].version@));
            assert(vs.push(entries@[j as int].version@).drop_last() =~= vs);
            assert(listed@ =~= comma_list(vs.push(entries@[j as int].version@)));
        }
        j = j + 1;
    }
    assert(entry_views(entries@).take(entries@.len() as int) =~= entry_views(entries@));
    let mut message = String::new();
    message.append("[catalog_entry_not_found] catalog entry ");
    let qid = debug_quote(id);
    message.append(qid.as_str());
    message.append(" version ");
    let qv = debug_quote(version);
    message.append(qv.as_str());
    message.append(" was not found; no changes were made. Recovery: use one of the ");
    if count == 0 {
        message.append("no versions are installed for that implementation");
    } else {
        message.append("available exact versions: ");
        message.append(listed.as_str());
    }
    Err(ToolError { kind: ErrorKind::ResourceNotFound, code: Some(ErrorCode::CatalogEntryNotFound), message, detail: ErrorDetail::Plain })
}

/// A configuration-schema pointer is empty or begins with `/`.
pub fn check_schema_pointer(pointer: &str) -> (r: Result<(), ToolError>)
    ensures
        r is Ok <==> (pointer@.len() == 0 || pointer@[0] == '/'),
        r matches Err(e) ==> e.is_coded(ErrorCode::CatalogSchemaPointerInvalid),
{
    if pointer.unicode_len() > 0 && pointer.get_char(0) != '/' {
        return Err(
            coded_invalid_request(
                ErrorCode::CatalogSchemaPointerInvalid,
                "configuration schema pointer must be empty or begin with '/'",
            ),
        );
    }
    Ok(())
}

/// The public tool name of a runtime control.
pub open spec fn public_control_spec(name: Seq<char>) -> Seq<char> {
    if name == "component_exec_live"@ {
        "cell_exec"@
    } else if name == "node_start"@ {
        "component_start"@
    } else if name == "node_stop"@ {
        "component_stop"@
    } else if name == "node_restart"@ {
        "component_restart"@
    } else if name == "reachability_oracle"@ {
        "network_probe"@
    } else {
        name
    }
}

/// Renames a runtime control to the public tool that performs it.
pub fn public_control_name(name: &str) -> (r: String)
    ensures
        r@ == public_control_spec(name@),
{
    if str_eq(name, "component_exec_live") {
        "cell_exec".to_owned()
    } else if str_eq(name, "node_start") {
        "component_start".to_owned()
    } else if str_eq(name, "node_stop") {
        "component_stop".to_owned()
    } else if str_eq(name, "node_restart") {
        "component_restart".to_owned()
    } else if str_eq(name, "reachability_oracle") {
        "network_probe".to_owned()
    } else {
        name.to_owned()
    }
}

/// Public controls of an endpoint: renamed, kept when a public tool has the
/// name, in order; the component endpoint also offers the native and lifecycle tools.
pub open spec fn public_controls_spec(
    endpoint_id: Seq<char>,
    controls: Seq<Seq<char>>,
    tools: Seq<Seq<char>>,
) -> Seq<Seq<char>> {
    let kept = controls.map_values(|c: Seq<char>| public_control_spec(c)).filter(
        |c: Seq<char>| tools.contains(c),
    );
    if endpoint_id == "component"@ {
        kept + seq![
            "cell_exec"@,
            "component_forensics"@,
            "component_start"@,
            "component_stop"@,
            "component_restart"@,
        ]
    } else {
        kept
    }
}

fn contains_name(tools: &Vec<String>, name: &str) -> (r: bool)
    ensures
        r == string_views(tools@).contains(name@),
{
    let mut i: usize = 0;
    while i < tools.len()
        invariant
            i <= tools@.len(),
            forall|k: int| 0 <= k < i ==> tools@[k]@ != name@,
        decreases tools@.len() - i,
    {
        if str_eq(tools[i].as_str(), name) {
            assert(string_views(tools@)[i as int] == name@);
            return true;
        }
        i = i + 1;
    }
    assert forall|k: int| 0 <= k < string_views(tools@).len() implies string_views(tools@)[k] != name@ by {
        assert(string_views(tools@)[k] == tools@[k]@);
    }
    false
}

/// The controls an endpoint publishes, given the names of the public tools.
pub fn public_controls(endpoint_id: &str, controls: &Vec<String>, tools: &Vec<String>) -> (r: Vec<String>)
    ensures
        string_views(r@) == public_controls_spec(endpoint_id@, string_views(controls@), string_views(tools@)),
{
    let ghost renamed = string_views(controls@).map_values(|c: Seq<char>| public_control_spec(c));
    let ghost pred = |c: Seq<char>| string_views(tools@).contains(c);
    let mut out: Vec<String> = Vec::new();
    let mut i: usize = 0;
    assert(renamed.take(0).filter(pred) =~= Seq::<Seq<char>>::empty()) by {
        reveal(Seq::filter);
    }
    while i < controls.len()
        invariant
            i <= controls@.len(),
            renamed == string_views(controls@).map_values(|c: Seq<char>| public_control_spec(c)),
            pred == (|c: Seq<char>| string_views(tools@).contains(c)),
            string_views(out@) == renamed.take(i as int).filter(pred),
        decreases controls@.len() - i,
    {
        let name = public_control_name(controls[i].as_str());
        let keep = contains_name(tools, name.as_str());
        proof {
            reveal(Seq::filter);
            assert(renamed.take(i + 1).drop_last() =~= renamed.take(i as int));
            assert(renamed.take(i + 1).last() == name@);
        }
        if keep {
            let ghost before = string_views(out@);
            out.push(name);
            assert(string_views(out@) =~= before.push(renamed[i as int]));
        }
        i = i + 1;
    }
    assert(renamed.take(controls@.len() as int) =~= renamed);
    if str_eq(endpoint_id, "component") {
        let ghost before = string_views(out@);
        out.push("cell_exec".to_owned());
        out.push("component_forensics".to_owned());
        out.push("component_start".to_owned());
        out.push("component_stop".to_owned());
        out.push("component_restart".to_owned());
        assert(string_views(out@) =~= before + seq![
            "cell_exec"@,
            "component_forensics"@,
            "component_start"@,
            "component_stop"@,
            "component_restart"@,
        ]);
    }
    out
}

/// A limitation as published: the live exec control goes by its public
/// tool, and typed operations are no longer offered.
pub open spec fn public_limitation_spec(line: Seq<char>) -> Seq<char> {
    replace_all(
        replace_all(line, "component_exec_live"@, "cell_exec"@),
        "All native and typed operations"@,
        "Native operations"@,
    )
}

/// Rewrites an endpoint's limitations for publication.
pub fn public_limitations(lines: &Vec<String>) -> (r: Vec<String>)
    ensures
        string_views(r@) == string_views(lines@).map_values(|l: Seq<char>| public_limitation_spec(l)),
{
    proof {
        reveal_strlit("component_exec_live");
        reveal_strlit("All native and typed operations");
    }
    let mut out: Vec<String> = Vec::new();
    let mut i: usize = 0;
    while i < lines.len()
        invariant
            i <= lines@.len(),
            "component_exec_live"@.len() > 0,
            "All native and typed operations"@.len() > 0,
            string_views(out@) == string_views(lines@).take(i as int).map_values(
                |l: Seq<char>| public_limitation_spec(l),
            ),
        decreases lines@.len() - i,
    {
        let renamed = replace_all_exec(lines[i].as_str(), "component_exec_live", "cell_exec");
        let line = replace_all_exec(renamed.as_str(), "All native and typed operations", "Native operations");
        let ghost before = string_views(out@);
        out.push(line);
        assert(string_views(out@) =~= before.push(public_limitation_spec(lines@[i as int]@)));
        assert(string_views(lines@).take(i + 1).map_values(|l: Seq<char>| public_limitation_spec(l))
            =~= string_views(lines@).take(i as int).map_values(|l: Seq<char>| public_limitation_spec(l)).push(
            public_limitation_spec(lines@[i as int]@),
        ));
        i = i + 1;
    }
    assert(string_views(lines@).take(i as int) =~= string_views(lines@));
    out
}

/// An endpoint as published: its controls renamed to the public tools that
/// perform them, and its limitations rewritten.
pub open spec fn public_endpoint_is(published: RuntimeEndpointView, ep: RuntimeEndpointView, tools: Seq<Seq<char>>) -> bool {
    &&& published.id@ == ep.id@
    &&& string_views(published.controls@) == public_controls_spec(ep.id@, string_views(ep.controls@), tools)
    &&& string_views(published.limitations@) == string_views(ep.limitations@).map_values(
        |l: Seq<char>| public_limitation_spec(l),
    )
}

/// The runtime endpoints of a catalog entry as the catalog publishes them.
/// `tools` are the names of the public tools.
pub fn public_endpoints(endpoints: &Vec<RuntimeEndpointView>, tools: &Vec<String>) -> (r: Vec<RuntimeEndpointView>)
    ensures
        r@.len() == endpoints@.len(),
        forall|i: int|
            0 <= i < endpoints@.len() ==> public_endpoint_is(#[trigger] r@[i], endpoints@[i], string_views(tools@)),
{
    let mut out: Vec<RuntimeEndpointView> = Vec::new();
    let mut i: usize = 0;
    while i < endpoints.len()
        invariant
            i <= endpoints@.len(),
            out@.len() == i,
            forall|k: int| 0 <= k < i ==> public_endpoint_is(#[trigger] out@[k], endpoints@[k], string_views(tools@)),
        decreases endpoints@.len() - i,
    {
        let ep = &endpoints[i];
        let published = RuntimeEndpointView {
            id: ep.id.clone(),
            controls: public_controls(ep.id.as_str(), &ep.controls, tools),
            limitations: public_limitations(&ep.limitations),
        };
        out.push(published);
        i = i + 1;
    }
    out
}

} // verus!
