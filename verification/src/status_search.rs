//! Searching and paging live component status and Kubernetes inventory: filter
//! and project first, page consecutive matches, shrink a page to the budget.
use crate::by_id::{Identified, lemma_sorted_selection, sort_by_id, sort_by_id_exec};
use crate::cell_search::{fields_ok, search_pattern, search_pattern_spec, validate_fields};
use crate::error::{ErrorCode, ErrorDetail, ToolError, coded_invalid_request};
use crate::limits::{MAX_AGENT_RESPONSE_BYTES, validate_status_list_limit};
use crate::pattern::Pattern;
use crate::requests::{CellComponentStatusListRequest, CellInventoryListRequest};
use crate::text::{push_char, str_eq};
use crate::text::opt_string;
use vstd::prelude::*;

verus! {

broadcast use vstd::string::group_string_axioms;

/// The error of a page on which not even one entry fits.
pub fn oversized(section: &str) -> (e: ToolError)
    ensures
        e.is_coded(ErrorCode::StatusResponseTooLarge),
        e.message@ == "one "@ + section@ + " entry exceeds the response budget; select smaller fields using JSON pointers"@
            + if section@ == "component"@ {
            " or use scan=true to find component IDs"@
        } else {
            Seq::<char>::empty()
        },
        e.detail == ErrorDetail::Plain,
{
    let mut message = String::new();
    message.append("one ");
    message.append(section);
    message.append(" entry exceeds the response budget; select smaller fields using JSON pointers");
    if str_eq(section, "component") {
        message.append(" or use scan=true to find component IDs");
    }
    coded_invalid_request(ErrorCode::StatusResponseTooLarge, message.as_str())
}

/// One component's live status: its ID, readiness and compact JSON.
#[derive(Clone, Debug)]
pub struct ComponentStatusEntry {
    pub id: String,
    pub ready: bool,
    pub text: String,
}

impl Identified for ComponentStatusEntry {
    open spec fn key(&self) -> Seq<char> {
        self.id@
    }

    fn id_str(&self) -> (r: &str) {
        self.id.as_str()
    }
}

/// One Kubernetes object of a cell's inventory: its sort key, kind, namespace and compact JSON.
#[derive(Clone, Debug)]
pub struct InventoryEntry {
    pub key: String,
    pub kind: String,
    pub namespace: String,
    pub text: String,
}

impl Identified for InventoryEntry {
    open spec fn key(&self) -> Seq<char> {
        self.key@
    }

    fn id_str(&self) -> (r: &str) {
        self.key.as_str()
    }
}

/// The inventory sort key: API version, kind, namespace and name separated by NUL.
pub open spec fn inventory_key_spec(
    api_version: Seq<char>,
    kind: Seq<char>,
    namespace: Seq<char>,
    name: Seq<char>,
) -> Seq<char> {
    api_version + seq!['\0'] + kind + seq!['\0'] + namespace + seq!['\0'] + name
}

/// The inventory sort key of one object.
pub fn inventory_key(api_version: &str, kind: &str, namespace: &str, name: &str) -> (r: String)
    ensures
        r@ == inventory_key_spec(api_version@, kind@, namespace@, name@),
{
    let mut r = api_version.to_owned();
    push_char(&mut r, '\0');
    r.append(kind);
    push_char(&mut r, '\0');
    r.append(namespace);
    push_char(&mut r, '\0');
    r.append(name);
    r
}

/// What checking a component status list yields: limit, fields, scan with
/// fields, then the query's pattern.
pub open spec fn component_list_check(r: CellComponentStatusListRequest) -> Result<Seq<char>, ErrorCode> {
    if !(1 <= r.limit <= 50) {
        Err(ErrorCode::StatusListLimitInvalid)
    } else if !fields_ok(r.fields@) || (r.scan && r.fields@.len() > 0) {
        Err(ErrorCode::SearchFieldsInvalid)
    } else {
        search_pattern_spec(r.query@, r.regex, r.case_insensitive)
    }
}

/// Checks a component status list request and compiles its query.
pub fn check_component_list(request: &CellComponentStatusListRequest) -> (r: Result<Pattern, ToolError>)
    ensures
        match component_list_check(*request) {
            Ok(source) => r matches Ok(p) && p.source() == source && p.case_insensitive()
                == request.case_insensitive,
            Err(code) => r matches Err(e) && e.is_coded(code),
        },
{
    let limit_ok = validate_status_list_limit(request.limit);
    if let Err(e) = limit_ok {
        return Err(e);
    }
    let fields_checked = validate_fields(&request.fields);
    if let Err(e) = fields_checked {
        return Err(e);
    }
    if request.scan && request.fields.len() > 0 {
        return Err(coded_invalid_request(ErrorCode::SearchFieldsInvalid, "choose scan or fields, not both"));
    }
    search_pattern(request.query.as_str(), request.regex, request.case_insensitive)
}

/// What checking an inventory list yields: limit, fields, then the query's pattern.
pub open spec fn inventory_list_check(r: CellInventoryListRequest) -> Result<Seq<char>, ErrorCode> {
    if !(1 <= r.limit <= 50) {
        Err(ErrorCode::StatusListLimitInvalid)
    } else if !fields_ok(r.fields@) {
        Err(ErrorCode::SearchFieldsInvalid)
    } else {
        search_pattern_spec(r.query@, r.regex, r.case_insensitive)
    }
}

/// Checks an inventory list request and compiles its query.
pub fn check_inventory_list(request: &CellInventoryListRequest) -> (r: Result<Pattern, ToolError>)
    ensures
        match inventory_list_check(*request) {
            Ok(source) => r matches Ok(p) && p.source() == source && p.case_insensitive()
                == request.case_insensitive,
            Err(code) => r matches Err(e) && e.is_coded(code),
        },
{
    let limit_ok = validate_status_list_limit(request.limit);
    if let Err(e) = limit_ok {
        return Err(e);
    }
    let fields_checked = validate_fields(&request.fields);
    if let Err(e) = fields_checked {
        return Err(e);
    }
    search_pattern(request.query.as_str(), request.regex, request.case_insensitive)
}

/// Whether a component's status passes the filters and the text pattern.
pub open spec fn component_selected(
    e: ComponentStatusEntry,
    component: Option<Seq<char>>,
    ready: Option<bool>,
    p: Pattern,
) -> bool {
    (component matches Some(c) ==> e.id@ == c) && (ready matches Some(b) ==> e.ready == b) && p.matches(
        e.text@,
    )
}

/// Whether an inventory object passes the filters and the text pattern.
pub open spec fn inventory_selected(
    e: InventoryEntry,
    kind: Option<Seq<char>>,
    namespace: Option<Seq<char>>,
    p: Pattern,
) -> bool {
    (kind matches Some(k) ==> e.kind@ == k) && (namespace matches Some(n) ==> e.namespace@ == n)
        && p.matches(e.text@)
}

/// The selected component statuses, sorted by ID.
pub open spec fn selected_components(
    es: Seq<ComponentStatusEntry>,
    component: Option<Seq<char>>,
    ready: Option<bool>,
    p: Pattern,
) -> Seq<ComponentStatusEntry> {
    sort_by_id(es).filter(|e: ComponentStatusEntry| component_selected(e, component, ready, p))
}

/// The selected inventory objects, sorted by key.
pub open spec fn selected_inventory(
    es: Seq<InventoryEntry>,
    kind: Option<Seq<char>>,
    namespace: Option<Seq<char>>,
    p: Pattern,
) -> Seq<InventoryEntry> {
    sort_by_id(es).filter(|e: InventoryEntry| inventory_selected(e, kind, namespace, p))
}

/// Sorts component statuses by ID and keeps those that pass the filters and the pattern.
pub fn select_components(
    entries: Vec<ComponentStatusEntry>,
    request: &CellComponentStatusListRequest,
    pattern: &Pattern,
) -> (r: Vec<ComponentStatusEntry>)
    ensures
        r@ == selected_components(
            entries@,
            opt_string(request.component),
            request.ready,
            *pattern,
        ),
        forall|k: int|
            0 <= k < r@.len() ==> entries@.contains(#[trigger] r@[k]) && component_carries(r@[k], *request)
                && pattern.matches(r@[k].text@),
        forall|i: int|
            0 <= i < entries@.len() && component_carries(#[trigger] entries@[i], *request) && pattern.matches(
                entries@[i].text@,
            ) ==> r@.contains(entries@[i]),
{
    proof {
        lemma_component_selection(entries@, *request, *pattern);
    }
    let sorted = sort_by_id_exec(entries);
    let ghost want = opt_string(request.component);
    let ghost pred = |e: ComponentStatusEntry| component_selected(e, want, request.ready, *pattern);
    let mut r: Vec<ComponentStatusEntry> = Vec::new();
    let mut rest = sorted;
    let ghost all = rest@;
    let n = rest.len();
    let mut i: usize = 0;
    assert(all.take(0).filter(pred) =~= Seq::<ComponentStatusEntry>::empty()) by {
        reveal(Seq::filter);
    }
    assert(all.skip(0) =~= all);
    while rest.len() > 0
        invariant
            i <= all.len(),
            all.len() == n,
            rest@ == all.skip(i as int),
            r@ == all.take(i as int).filter(pred),
            want == opt_string(request.component),
            pred == (|e: ComponentStatusEntry| component_selected(e, want, request.ready, *pattern)),
        decreases rest@.len(),
    {
        let e = rest.remove(0);
        let id_ok = match &request.component {
            Some(c) => str_eq(e.id.as_str(), c.as_str()),
            None => true,
        };
        let ready_ok = match request.ready {
            Some(b) => e.ready == b,
            None => true,
        };
        let keep = id_ok && ready_ok && pattern.is_match(e.text.as_str());
        proof {
            reveal(Seq::filter);
            assert(all.take(i + 1).drop_last() =~= all.take(i as int));
            assert(all.take(i + 1).last() == e);
        }
        if keep {
            r.push(e);
        }
        assert(rest@ =~= all.skip(i + 1));
        i = i + 1;
    }
    assert(all.take(i as int) =~= all);
    r
}

/// Sorts inventory objects by key and keeps those that pass the filters and the pattern.
pub fn select_inventory(
    entries: Vec<InventoryEntry>,
    request: &CellInventoryListRequest,
    pattern: &Pattern,
) -> (r: Vec<InventoryEntry>)
    ensures
        r@ == selected_inventory(
            entries@,
            opt_string(request.kind),
            opt_string(request.namespace),
            *pattern,
        ),
        forall|k: int|
            0 <= k < r@.len() ==> entries@.contains(#[trigger] r@[k]) && inventory_carries(r@[k], *request)
                && pattern.matches(r@[k].text@),
        forall|i: int|
            0 <= i < entries@.len() && inventory_carries(#[trigger] entries@[i], *request) && pattern.matches(
                entries@[i].text@,
            ) ==> r@.contains(entries@[i]),
{
    proof {
        lemma_inventory_selection(entries@, *request, *pattern);
    }
    let sorted = sort_by_id_exec(entries);
    let ghost kind = opt_string(request.kind);
    let ghost ns = opt_string(request.namespace);
    let ghost pred = |e: InventoryEntry| inventory_selected(e, kind, ns, *pattern);
    let mut r: Vec<InventoryEntry> = Vec::new();
    let mut rest = sorted;
    let ghost all = rest@;
    let n = rest.len();
    let mut i: usize = 0;
    assert(all.take(0).filter(pred) =~= Seq::<InventoryEntry>::empty()) by {
        reveal(Seq::filter);
    }
    assert(all.skip(0) =~= all);
    while rest.len() > 0
        invariant
            i <= all.len(),
            all.len() == n,
            rest@ == all.skip(i as int),
            r@ == all.take(i as int).filter(pred),
            kind == opt_string(request.kind),
            ns == opt_string(request.namespace),
            pred == (|e: InventoryEntry| inventory_selected(e, kind, ns, *pattern)),
        decreases rest@.len(),
    {
        let e = rest.remove(0);
        let kind_ok = match &request.kind {
            Some(k) => str_eq(e.kind.as_str(), k.as_str()),
            None => true,
        };
        let ns_ok = match &request.namespace {
            Some(x) => str_eq(e.namespace.as_str(), x.as_str()),
            None => true,
        };
        let keep = kind_ok && ns_ok && pattern.is_match(e.text.as_str());
        proof {
            reveal(Seq::filter);
            assert(all.take(i + 1).drop_last() =~= all.take(i as int));
            assert(all.take(i + 1).last() == e);
        }
        if keep {
            r.push(e);
        }
        assert(rest@ =~= all.skip(i + 1));
        i = i + 1;
    }
    assert(all.take(i as int) =~= all);
    r
}

/// Whether the page ending at `end` was measured and found over the budget.
pub open spec fn page_too_large<F: Fn(usize) -> usize>(size_of: F, end: usize) -> bool {
    exists|s: usize| #[trigger] size_of.ensures((end,), s) && s > MAX_AGENT_RESPONSE_BYTES
}

/// The page end a status page starts from: `start + limit`, at most `count`.
pub open spec fn wanted_end(start: nat, limit: nat, count: nat) -> nat {
    if limit < count - start {
        start + limit
    } else {
        count
    }
}

/// Shrinks a status page from `min(start + limit, count)` by one entry at a
/// time until its response fits the budget. `size_of(end)` is the wire size of
/// the response holding entries `start..end`. Returns the page end.
pub fn fit_status_page<F: Fn(usize) -> usize>(
    start: usize,
    limit: u32,
    count: usize,
    section: &str,
    size_of: F,
) -> (r: Result<usize, ToolError>)
    requires
        start <= count,
        forall|e: usize| size_of.requires((e,)),
    ensures
        match r {
            Ok(end) => {
                &&& start <= end <= wanted_end(start as nat, limit as nat, count as nat)
                &&& end > start || wanted_end(start as nat, limit as nat, count as nat) == start
                &&& exists|s: usize| #[trigger] size_of.ensures((end,), s) && s <= MAX_AGENT_RESPONSE_BYTES
                &&& forall|e: usize|
                    end < e <= wanted_end(start as nat, limit as nat, count as nat) ==> #[trigger] page_too_large(
                        size_of,
                        e,
                    )
            },
            Err(e) => {
                &&& e.is_coded(ErrorCode::StatusResponseTooLarge)
                &&& forall|e: usize|
                    start < e <= wanted_end(start as nat, limit as nat, count as nat) ==> #[trigger] page_too_large(
                        size_of,
                        e,
                    )
                &&& wanted_end(start as nat, limit as nat, count as nat) == start ==> page_too_large(size_of, start)
            },
        },
{
    let want: usize = if (limit as usize) < count - start {
        start + limit as usize
    } else {
        count
    };
    let mut end = want;
    loop
        invariant
            start <= end <= want,
            end > start || want == start,
            want == wanted_end(start as nat, limit as nat, count as nat),
            forall|e: usize| end < e <= want ==> #[trigger] page_too_large(size_of, e),
            forall|e: usize| size_of.requires((e,)),
        decreases end,
    {
        let size = size_of(end);
        if size <= MAX_AGENT_RESPONSE_BYTES {
            assert(size_of.ensures((end,), size));
            assert(start <= end <= wanted_end(start as nat, limit as nat, count as nat));
            assert(end > start || wanted_end(start as nat, limit as nat, count as nat) == start);
            return Ok(end);
        }
        assert(page_too_large(size_of, end));
        if end - start <= 1 {
            return Err(oversized(section));
        }
        end = end - 1;
    }
}

/// A page continues when entries remain after it and it holds at least one.
pub fn page_continues(start: usize, end: usize, count: usize) -> (r: bool)
    ensures
        r == (end < count && end > start),
{
    end < count && end > start
}

/// Whether an inventory object has the kind and namespace the request names.
pub open spec fn inventory_carries(e: InventoryEntry, request: CellInventoryListRequest) -> bool {
    &&& (request.kind matches Some(k) ==> e.kind@ == k@)
    &&& (request.namespace matches Some(n) ==> e.namespace@ == n@)
}

/// An inventory list holds exactly the objects the request selects: every
/// listed object is one of the inputs, in the requested kind and namespace,
/// and matches the query; and every such object is listed.
pub proof fn lemma_inventory_selection(es: Seq<InventoryEntry>, request: CellInventoryListRequest, p: Pattern)
    ensures
        forall|k: int|
            0 <= k < selected_inventory(es, opt_string(request.kind), opt_string(request.namespace), p).len() ==> {
                let e = #[trigger] selected_inventory(es, opt_string(request.kind), opt_string(request.namespace), p)[k];
                &&& es.contains(e)
                &&& inventory_carries(e, request)
                &&& p.matches(e.text@)
            },
        forall|i: int|
            0 <= i < es.len() && inventory_carries(#[trigger] es[i], request) && p.matches(es[i].text@)
                ==> selected_inventory(es, opt_string(request.kind), opt_string(request.namespace), p).contains(es[i]),
{
    let kind = opt_string(request.kind);
    let ns = opt_string(request.namespace);
    let pred = |e: InventoryEntry| inventory_selected(e, kind, ns, p);
    lemma_sorted_selection(es, pred);
    let sel = selected_inventory(es, kind, ns, p);
    assert forall|k: int| 0 <= k < sel.len() implies {
        let e = #[trigger] sel[k];
        &&& es.contains(e)
        &&& inventory_carries(e, request)
        &&& p.matches(e.text@)
    } by {
        assert(pred(sel[k]));
    }
    assert forall|i: int| 0 <= i < es.len() && inventory_carries(#[trigger] es[i], request) && p.matches(es[i].text@)
        implies sel.contains(es[i]) by {
        assert(pred(es[i]));
    }
}

/// Whether a component status has the ID and readiness the request names.
pub open spec fn component_carries(e: ComponentStatusEntry, request: CellComponentStatusListRequest) -> bool {
    &&& (request.component matches Some(c) ==> e.id@ == c@)
    &&& (request.ready matches Some(b) ==> e.ready == b)
}

/// A component status list holds exactly the components the request selects:
/// every listed status is one of the inputs, has the requested ID and
/// readiness and matches the query; and every such status is listed.
pub proof fn lemma_component_selection(
    es: Seq<ComponentStatusEntry>,
    request: CellComponentStatusListRequest,
    p: Pattern,
)
    ensures
        forall|k: int|
            0 <= k < selected_components(es, opt_string(request.component), request.ready, p).len() ==> {
                let e = #[trigger] selected_components(es, opt_string(request.component), request.ready, p)[k];
                &&& es.contains(e)
                &&& component_carries(e, request)
                &&& p.matches(e.text@)
            },
        forall|i: int|
            0 <= i < es.len() && component_carries(#[trigger] es[i], request) && p.matches(es[i].text@)
                ==> selected_components(es, opt_string(request.component), request.ready, p).contains(es[i]),
{
    let want = opt_string(request.component);
    let pred = |e: ComponentStatusEntry| component_selected(e, want, request.ready, p);
    lemma_sorted_selection(es, pred);
    let sel = selected_components(es, want, request.ready, p);
    assert forall|k: int| 0 <= k < sel.len() implies {
        let e = #[trigger] sel[k];
        &&& es.contains(e)
        &&& component_carries(e, request)
        &&& p.matches(e.text@)
    } by {
        assert(pred(sel[k]));
    }
    assert forall|i: int| 0 <= i < es.len() && component_carries(#[trigger] es[i], request) && p.matches(es[i].text@)
        implies sel.contains(es[i]) by {
        assert(pred(es[i]));
    }
}

} // verus!
