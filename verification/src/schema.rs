//! Component configuration schemas: the authorable and required fields, the
//! declared defaults, pointer fragments, and the local references a fragment
//! needs to be read on its own.
use crate::catalog::{
    CatalogEntryKey, check_schema_pointer, entry_not_found_message, entry_views, exact_catalog_entry,
    first_entry,
};
use crate::error::{ErrorCode, ErrorDetail, ErrorKind, ToolError, coded_invalid_request};
use crate::requests::CatalogConfigSchemaRequest;
use crate::json::{
    Json, JsonMember, array_index, child, first_member, follow, get_member, lookup, member_value,
    pointer_tokens, resolve,
};
use crate::text::{
    chars_of, debug_quote, debug_text, sort_strings, sort_strings_exec, str_eq, string_of_range,
    string_views,
};
use vstd::prelude::*;

verus! {

broadcast use vstd::string::group_string_axioms;

/// The keys of a schema's `properties` object, in document order.
pub open spec fn property_names(schema: Json) -> Seq<Seq<char>> {
    match member_value(schema, "properties"@) {
        Some(Json::Object(ms)) => ms@.map_values(|m: JsonMember| m.key@),
        _ => Seq::empty(),
    }
}

/// The strings among a run of values, in order.
pub open spec fn string_items(items: Seq<Json>) -> Seq<Seq<char>>
    decreases items.len(),
{
    if items.len() == 0 {
        Seq::empty()
    } else {
        string_items(items.drop_last()) + match items.last() {
            Json::Str(s) => seq![s@],
            _ => Seq::empty(),
        }
    }
}

/// The strings of a schema's `required` array.
pub open spec fn required_names(schema: Json) -> Seq<Seq<char>> {
    match member_value(schema, "required"@) {
        Some(Json::Array(items)) => string_items(items@),
        _ => Seq::empty(),
    }
}

/// Each property that declares a `default`, with that default, in order.
pub open spec fn defaults_of(ms: Seq<JsonMember>) -> Seq<(Seq<char>, Json)>
    decreases ms.len(),
{
    if ms.len() == 0 {
        Seq::empty()
    } else {
        defaults_of(ms.drop_last()) + match member_value(ms.last().value, "default"@) {
            Some(d) => seq![(ms.last().key@, d)],
            None => Seq::empty(),
        }
    }
}

/// The defaults a schema's properties declare.
pub open spec fn schema_defaults(schema: Json) -> Seq<(Seq<char>, Json)> {
    match member_value(schema, "properties"@) {
        Some(Json::Object(ms)) => defaults_of(ms@),
        _ => Seq::empty(),
    }
}

/// Names of all authorable configuration properties, in `String` order.
pub fn authorable_config_fields(schema: &Json) -> (r: Vec<String>)
    ensures
        string_views(r@) == sort_strings(property_names(*schema)),
{
    let mut names: Vec<String> = Vec::new();
    if let Some(Json::Object(ms)) = get_member(schema, "properties") {
        let mut i: usize = 0;
        while i < ms.len()
            invariant
                i <= ms@.len(),
                string_views(names@) == ms@.take(i as int).map_values(|m: JsonMember| m.key@),
            decreases ms@.len() - i,
        {
            let ghost before = names@;
            names.push(ms[i].key.clone());
            assert(string_views(names@) =~= string_views(before).push(ms@[i as int].key@));
            assert(ms@.take(i + 1).map_values(|m: JsonMember| m.key@) =~= ms@.take(i as int).map_values(
                |m: JsonMember| m.key@,
            ).push(ms@[i as int].key@));
            i = i + 1;
        }
        assert(ms@.take(i as int) =~= ms@);
    } else {
        assert(string_views(names@) =~= Seq::<Seq<char>>::empty());
    }
    sort_strings_exec(&names)
}

/// Names of the required configuration properties, in `String` order.
pub fn required_config_fields(schema: &Json) -> (r: Vec<String>)
    ensures
        string_views(r@) == sort_strings(required_names(*schema)),
{
    let mut names: Vec<String> = Vec::new();
    if let Some(Json::Array(items)) = get_member(schema, "required") {
        let mut i: usize = 0;
        while i < items.len()
            invariant
                i <= items@.len(),
                string_views(names@) == string_items(items@.take(i as int)),
            decreases items@.len() - i,
        {
            let ghost before = names@;
            assert(items@.take(i + 1).drop_last() =~= items@.take(i as int));
            assert(items@.take(i + 1).last() == items@[i as int]);
            if let Json::Str(s) = &items[i] {
                names.push(s.clone());
                assert(string_views(names@) =~= string_views(before).push(s@));
            }
            assert(string_views(names@) =~= string_items(items@.take(i + 1)));
            i = i + 1;
        }
        assert(items@.take(i as int) =~= items@);
    } else {
        assert(string_views(names@) =~= Seq::<Seq<char>>::empty());
    }
    sort_strings_exec(&names)
}

/// The defaults the configuration properties declare, in property order.
pub fn config_defaults<'a>(schema: &'a Json) -> (r: Vec<(String, &'a Json)>)
    ensures
        r@.map_values(|p: (String, &'a Json)| (p.0@, *p.1)) == schema_defaults(*schema),
{
    let mut out: Vec<(String, &'a Json)> = Vec::new();
    if let Some(Json::Object(ms)) = get_member(schema, "properties") {
        let mut i: usize = 0;
        while i < ms.len()
            invariant
                i <= ms@.len(),
                out@.map_values(|p: (String, &'a Json)| (p.0@, *p.1)) == defaults_of(ms@.take(i as int)),
            decreases ms@.len() - i,
        {
            let ghost before = out@;
            assert(ms@.take(i + 1).drop_last() =~= ms@.take(i as int));
            assert(ms@.take(i + 1).last() == ms@[i as int]);
            if let Some(d) = get_member(&ms[i].value, "default") {
                out.push((ms[i].key.clone(), d));
                assert(out@.map_values(|p: (String, &'a Json)| (p.0@, *p.1)) =~= before.map_values(
                    |p: (String, &'a Json)| (p.0@, *p.1),
                ).push((ms@[i as int].key@, *d)));
            }
            assert(out@.map_values(|p: (String, &'a Json)| (p.0@, *p.1)) =~= defaults_of(ms@.take(i + 1)));
            i = i + 1;
        }
        assert(ms@.take(i as int) =~= ms@);
    } else {
        assert(out@.map_values(|p: (String, &'a Json)| (p.0@, *p.1)) =~= Seq::<(Seq<char>, Json)>::empty());
    }
    out
}

/// The part of a configuration schema that a pointer selects: the whole schema
/// for the empty pointer; a pointer that selects nothing is not found.
pub fn config_schema_fragment<'a>(schema: &'a Json, pointer: &str, id: &str, version: &str) -> (r: Result<
    &'a Json,
    ToolError,
>)
    ensures
        match resolve(*schema, pointer@) {
            Some(f) => r matches Ok(x) && *x == f,
            None => r matches Err(e) && e.kind == ErrorKind::ResourceNotFound && e.code == Some(
                ErrorCode::CatalogSchemaPointerNotFound,
            ) && e.message@ == "configuration schema pointer "@ + debug_text(pointer@)
                + " was not found for "@ + debug_text(id@) + " version "@ + debug_text(version@),
        },
{
    match lookup(schema, pointer) {
        Some(f) => Ok(f),
        None => {
            let mut message = String::new();
            message.append("configuration schema pointer ");
            let qp = debug_quote(pointer);
            message.append(qp.as_str());
            message.append(" was not found for ");
            let qi = debug_quote(id);
            message.append(qi.as_str());
            message.append(" version ");
            let qv = debug_quote(version);
            message.append(qv.as_str());
            Err(
                ToolError {
                    kind: ErrorKind::ResourceNotFound,
                    code: Some(ErrorCode::CatalogSchemaPointerNotFound),
                    message,
                    detail: ErrorDetail::Plain,
                },
            )
        },
    }
}

// ---------------------------------------------------------------------------
// Local references
// ---------------------------------------------------------------------------

/// The local reference an object carries: its `$ref` string when that begins with `#`.
pub open spec fn local_ref(v: Json) -> Option<Seq<char>> {
    match member_value(v, "$ref"@) {
        Some(Json::Str(s)) => if s@.len() > 0 && s@[0] == '#' {
            Some(s@)
        } else {
            None
        },
        _ => None,
    }
}

/// The local references in `v` and in its values, in document order.
pub open spec fn refs_in(v: Json) -> Seq<Seq<char>>
    decreases v, 1int, 0int,
{
    match v {
        Json::Array(items) => item_refs(v, items@.len() as int),
        Json::Object(ms) => match local_ref(v) {
            Some(r) => seq![r] + member_refs(v, ms@.len() as int),
            None => member_refs(v, ms@.len() as int),
        },
        _ => Seq::empty(),
    }
}

/// The local references in the first `n` items of an array.
pub open spec fn item_refs(v: Json, n: int) -> Seq<Seq<char>>
    decreases v, 0int, n,
{
    match v {
        Json::Array(items) => if n <= 0 || n > items@.len() {
            Seq::empty()
        } else {
            item_refs(v, n - 1) + refs_in(items@[n - 1])
        },
        _ => Seq::empty(),
    }
}

/// The local references in the values of the first `n` members of an object.
pub open spec fn member_refs(v: Json, n: int) -> Seq<Seq<char>>
    decreases v, 0int, n,
{
    match v {
        Json::Object(ms) => if n <= 0 || n > ms@.len() {
            Seq::empty()
        } else {
            member_refs(v, n - 1) + refs_in(ms@[n - 1].value)
        },
        _ => Seq::empty(),
    }
}

/// Reference `r` leads to `q`: `r`'s target in the root schema holds `q`.
pub open spec fn ref_leads(root: Json, r: Seq<char>, q: Seq<char>) -> bool {
    match resolve(root, r.drop_first()) {
        Some(t) => refs_in(t).contains(q),
        None => false,
    }
}

/// A set of references that holds every local reference in the fragment and
/// everything a reference in it leads to.
pub open spec fn ref_closed(root: Json, fragment: Json, s: Set<Seq<char>>) -> bool {
    &&& forall|r: Seq<char>| #[trigger] refs_in(fragment).contains(r) ==> s.contains(r)
    &&& forall|r: Seq<char>, q: Seq<char>| s.contains(r) && #[trigger] ref_leads(root, r, q) ==> s.contains(q)
}

/// A reference the fragment needs: one in every closed set, that is, met in
/// the fragment or in the target of a reference it needs.
pub open spec fn needed_ref(root: Json, fragment: Json, r: Seq<char>) -> bool {
    forall|s: Set<Seq<char>>| #[trigger] ref_closed(root, fragment, s) ==> s.contains(r)
}

/// The references collected so far.
pub open spec fn ref_keys(rs: Seq<(String, &Json)>) -> Seq<Seq<char>> {
    rs.map_values(|p: (String, &Json)| p.0@)
}

/// Collected references are distinct needed local references of the root,
/// each with its target.
pub open spec fn refs_sound(rs: Seq<(String, &Json)>, root: Json, fragment: Json) -> bool {
    &&& ref_keys(rs).no_duplicates()
    &&& forall|i: int|
        0 <= i < rs.len() ==> {
            let k = (#[trigger] rs[i]).0@;
            &&& k.len() > 0
            &&& k[0] == '#'
            &&& resolve(root, k.drop_first()) == Some(*rs[i].1)
            &&& needed_ref(root, fragment, k)
        }
}

/// Every reference met in the targets collected from position `from` on is collected.
pub open spec fn closed_from(rs: Seq<(String, &Json)>, from: int) -> bool {
    forall|i: int, q: Seq<char>|
        from <= i < rs.len() && #[trigger] refs_in(*rs[i].1).contains(q) ==> ref_keys(rs).contains(q)
}

/// `new` keeps `old` as its beginning.
pub open spec fn extends<T>(new: Seq<T>, old: Seq<T>) -> bool {
    old.len() <= new.len() && forall|i: int| 0 <= i < old.len() ==> new[i] == old[i]
}

/// The message of a reference whose target the schema lacks.
pub open spec fn unresolved_message(r: Seq<char>) -> Seq<char> {
    "configuration schema contains unresolved reference "@ + debug_text(r)
}

/// The error names a needed local reference that does not resolve.
pub open spec fn reports_unresolved(e: ToolError, root: Json, fragment: Json) -> bool {
    exists|r: Seq<char>|
        #[trigger] needed_ref(root, fragment, r) && r.len() > 0 && r[0] == '#' && resolve(
            root,
            r.drop_first(),
        ) is None && e.is_coded(ErrorCode::CatalogSchemaReferenceInvalid) && e.message@
            == unresolved_message(r)
}

pub(crate) proof fn lemma_concat_contains<T>(a: Seq<T>, b: Seq<T>, q: T)
    ensures
        (a + b).contains(q) <==> (a.contains(q) || b.contains(q)),
{
    if a.contains(q) {
        let j = choose|j: int| 0 <= j < a.len() && a[j] == q;
        assert((a + b)[j] == q);
    }
    if b.contains(q) {
        let j = choose|j: int| 0 <= j < b.len() && b[j] == q;
        assert((a + b)[a.len() + j] == q);
    }
    if (a + b).contains(q) {
        let j = choose|j: int| 0 <= j < (a + b).len() && (a + b)[j] == q;
        if j < a.len() {
            assert(a[j] == q);
        } else {
            assert(b[j - a.len()] == q);
        }
    }
}

proof fn lemma_item_refs_has(v: Json, n: int, k: int)
    requires
        v is Array,
        0 <= k < n <= v->Array_0@.len(),
    ensures
        forall|q: Seq<char>| refs_in(v->Array_0@[k]).contains(q) ==> item_refs(v, n).contains(q),
    decreases n,
{
    let items = v->Array_0;
    if k < n - 1 {
        lemma_item_refs_has(v, n - 1, k);
    }
    assert forall|q: Seq<char>| refs_in(items@[k]).contains(q) implies item_refs(v, n).contains(q) by {
        lemma_concat_contains(item_refs(v, n - 1), refs_in(items@[n - 1]), q);
    }
}

proof fn lemma_member_refs_has(v: Json, n: int, k: int)
    requires
        v is Object,
        0 <= k < n <= v->Object_0@.len(),
    ensures
        forall|q: Seq<char>| refs_in(v->Object_0@[k].value).contains(q) ==> member_refs(v, n).contains(q),
    decreases n,
{
    let ms = v->Object_0;
    if k < n - 1 {
        lemma_member_refs_has(v, n - 1, k);
    }
    assert forall|q: Seq<char>| refs_in(ms@[k].value).contains(q) implies member_refs(v, n).contains(q) by {
        lemma_concat_contains(member_refs(v, n - 1), refs_in(ms@[n - 1].value), q);
    }
}

proof fn lemma_member_in_object(v: Json, k: int)
    requires
        v is Object,
        0 <= k < v->Object_0@.len(),
    ensures
        forall|q: Seq<char>| refs_in(v->Object_0@[k].value).contains(q) ==> refs_in(v).contains(q),
{
    let ms = v->Object_0;
    lemma_member_refs_has(v, ms@.len() as int, k);
    assert forall|q: Seq<char>| refs_in(ms@[k].value).contains(q) implies refs_in(v).contains(q) by {
        match local_ref(v) {
            Some(r) => lemma_concat_contains(seq![r], member_refs(v, ms@.len() as int), q),
            None => {},
        }
    }
}

proof fn lemma_first_member_bounds(ms: Seq<JsonMember>, key: Seq<char>, n: int)
    ensures
        first_member(ms, key, n) matches Some(i) ==> 0 <= i < n,
    decreases n,
{
    if n > 0 {
        lemma_first_member_bounds(ms, key, n - 1);
    }
}

proof fn lemma_child_refs(v: Json, token: Seq<char>, c: Json)
    requires
        child(v, token) == Some(c),
    ensures
        forall|q: Seq<char>| refs_in(c).contains(q) ==> refs_in(v).contains(q),
{
    match v {
        Json::Object(ms) => {
            lemma_first_member_bounds(ms@, token, ms@.len() as int);
            let i = first_member(ms@, token, ms@.len() as int)->Some_0;
            assert(0 <= i < ms@.len());
            assert(c == ms@[i].value);
            lemma_member_in_object(v, i);
            assert(v->Object_0 == ms);
        },
        Json::Array(items) => {
            let n = array_index(token)->Some_0;
            assert(c == items@[n as int]);
            lemma_item_refs_has(v, items@.len() as int, n as int);
            assert(v->Array_0 == items);
            assert forall|q: Seq<char>| refs_in(c).contains(q) implies refs_in(v).contains(q) by {
                assert(item_refs(v, items@.len() as int).contains(q));
            }
        },
        _ => {},
    }
}

proof fn lemma_follow_refs(v: Json, tokens: Seq<Seq<char>>, t: Json)
    requires
        follow(v, tokens) == Some(t),
    ensures
        forall|q: Seq<char>| refs_in(t).contains(q) ==> refs_in(v).contains(q),
    decreases tokens.len(),
{
    if tokens.len() > 0 {
        let c = child(v, tokens[0])->Some_0;
        lemma_follow_refs(c, tokens.drop_first(), t);
        lemma_child_refs(v, tokens[0], c);
    }
}

proof fn lemma_resolve_refs(root: Json, p: Seq<char>, t: Json)
    requires
        resolve(root, p) == Some(t),
    ensures
        forall|q: Seq<char>| refs_in(t).contains(q) ==> refs_in(root).contains(q),
{
    if p.len() > 0 {
        lemma_follow_refs(root, pointer_tokens(p), t);
    }
}

proof fn lemma_keys_bounded(keys: Seq<Seq<char>>, all: Seq<Seq<char>>)
    requires
        keys.no_duplicates(),
        forall|i: int| 0 <= i < keys.len() ==> all.contains(#[trigger] keys[i]),
    ensures
        keys.len() <= all.len(),
{
    broadcast use vstd::seq_lib::seq_to_set_is_finite;

    keys.unique_seq_to_set();
    all.lemma_cardinality_of_set();
    assert forall|x: Seq<char>| keys.to_set().contains(x) implies all.to_set().contains(x) by {
        let j = choose|j: int| 0 <= j < keys.len() && keys[j] == x;
    }
    vstd::set_lib::lemma_len_subset(keys.to_set(), all.to_set());
}

/// Whether a reference has been collected.
fn collected(rs: &Vec<(String, &Json)>, key: &str) -> (r: bool)
    ensures
        r == ref_keys(rs@).contains(key@),
{
    let mut i: usize = 0;
    while i < rs.len()
        invariant
            i <= rs@.len(),
            forall|k: int| 0 <= k < i ==> rs@[k].0@ != key@,
        decreases rs@.len() - i,
    {
        if str_eq(rs[i].0.as_str(), key) {
            assert(ref_keys(rs@)[i as int] == key@);
            return true;
        }
        i = i + 1;
    }
    assert forall|k: int| 0 <= k < ref_keys(rs@).len() implies ref_keys(rs@)[k] != key@ by {
        assert(ref_keys(rs@)[k] == rs@[k].0@);
    }
    false
}

/// The error of a reference whose target the schema lacks.
fn unresolved_reference(reference: &str) -> (e: ToolError)
    ensures
        e.is_coded(ErrorCode::CatalogSchemaReferenceInvalid),
        e.message@ == unresolved_message(reference@),
{
    let mut message = String::new();
    message.append("configuration schema contains unresolved reference ");
    let q = debug_quote(reference);
    message.append(q.as_str());
    coded_invalid_request(ErrorCode::CatalogSchemaReferenceInvalid, message.as_str())
}

/// Every local reference met while collecting: those of the fragment and of the root.
pub open spec fn all_refs(root: Json, fragment: Json) -> Seq<Seq<char>> {
    refs_in(fragment) + refs_in(root)
}

/// Collected references are distinct needed local references, each with its
/// target in the root, and each met in the fragment or the root.
pub open spec fn refs_bounded(rs: Seq<(String, &Json)>, root: Json, fragment: Json) -> bool {
    &&& refs_sound(rs, root, fragment)
    &&& forall|i: int| 0 <= i < rs.len() ==> all_refs(root, fragment).contains(#[trigger] rs[i].0@)
}

proof fn lemma_bounded_len(rs: Seq<(String, &Json)>, root: Json, fragment: Json)
    requires
        refs_bounded(rs, root, fragment),
    ensures
        rs.len() <= all_refs(root, fragment).len(),
{
    assert forall|i: int| 0 <= i < ref_keys(rs).len() implies all_refs(root, fragment).contains(
        #[trigger] ref_keys(rs)[i],
    ) by {
        assert(rs[i].0@ == ref_keys(rs)[i]);
    }
    lemma_keys_bounded(ref_keys(rs), all_refs(root, fragment));
}

proof fn lemma_keys_grow(b: Seq<(String, &Json)>, c: Seq<(String, &Json)>)
    requires
        extends(c, b),
    ensures
        forall|q: Seq<char>| ref_keys(b).contains(q) ==> ref_keys(c).contains(q),
{
    assert forall|q: Seq<char>| ref_keys(b).contains(q) implies ref_keys(c).contains(q) by {
        let j = choose|j: int| 0 <= j < ref_keys(b).len() && ref_keys(b)[j] == q;
        assert(c[j] == b[j]);
        assert(ref_keys(c)[j] == q);
    }
}

proof fn lemma_extend_closed(a: Seq<(String, &Json)>, b: Seq<(String, &Json)>, c: Seq<(String, &Json)>, from: int)
    requires
        0 <= from,
        extends(b, a),
        extends(c, b),
        closed_from(b, from),
        closed_from(c, b.len() as int),
    ensures
        extends(c, a),
        closed_from(c, from),
{
    lemma_keys_grow(b, c);
    assert forall|i: int, q: Seq<char>| from <= i < c.len() && #[trigger] refs_in(*c[i].1).contains(q) implies ref_keys(c).contains(q) by {
        if i < b.len() {
            assert(c[i] == b[i]);
            assert(refs_in(*b[i].1).contains(q));
        }
    }
    assert forall|i: int| 0 <= i < a.len() implies c[i] == a[i] by {
        assert(b[i] == a[i]);
    }
}

/// A reference that `r` leads to is needed when `r` is.
proof fn lemma_needed_leads(root: Json, fragment: Json, r: Seq<char>, q: Seq<char>)
    requires
        needed_ref(root, fragment, r),
        ref_leads(root, r, q),
    ensures
        needed_ref(root, fragment, q),
{
    assert forall|s: Set<Seq<char>>| #[trigger] ref_closed(root, fragment, s) implies s.contains(q) by {
        assert(s.contains(r));
    }
}

proof fn lemma_push_bounded(
    before: Seq<(String, &Json)>,
    after: Seq<(String, &Json)>,
    root: Json,
    fragment: Json,
)
    requires
        refs_bounded(before, root, fragment),
        after.len() == before.len() + 1,
        extends(after, before),
        !ref_keys(before).contains(after.last().0@),
        after.last().0@.len() > 0,
        after.last().0@[0] == '#',
        resolve(root, after.last().0@.drop_first()) == Some(*after.last().1),
        needed_ref(root, fragment, after.last().0@),
        all_refs(root, fragment).contains(after.last().0@),
    ensures
        refs_bounded(after, root, fragment),
        ref_keys(after) == ref_keys(before).push(after.last().0@),
{
    let k = after.last().0@;
    assert(ref_keys(after) =~= ref_keys(before).push(k)) by {
        assert forall|i: int| 0 <= i < before.len() implies ref_keys(after)[i] == ref_keys(before)[i] by {
            assert(after[i] == before[i]);
        }
    }
    assert forall|i: int, j: int|
        0 <= i < ref_keys(after).len() && 0 <= j < ref_keys(after).len() && i != j implies ref_keys(
            after,
        )[i] != ref_keys(after)[j] by {
        if i == before.len() {
            assert(ref_keys(before)[j] == ref_keys(after)[j]);
        } else if j == before.len() {
            assert(ref_keys(before)[i] == ref_keys(after)[i]);
        }
    }
    assert forall|i: int| 0 <= i < after.len() implies {
        let k = (#[trigger] after[i]).0@;
        &&& k.len() > 0
        &&& k[0] == '#'
        &&& resolve(root, k.drop_first()) == Some(*after[i].1)
        &&& needed_ref(root, fragment, k)
    } && all_refs(root, fragment).contains(after[i].0@) by {
        if i < before.len() {
            assert(after[i] == before[i]);
        }
    }
}

proof fn lemma_closed_after_target(
    before: Seq<(String, &Json)>,
    pushed: Seq<(String, &Json)>,
    fin: Seq<(String, &Json)>,
    root: Json,
    fragment: Json,
)
    requires
        pushed.len() == before.len() + 1,
        extends(pushed, before),
        extends(fin, pushed),
        closed_from(fin, pushed.len() as int),
        forall|q: Seq<char>| #[trigger] refs_in(*pushed.last().1).contains(q) ==> ref_keys(fin).contains(q),
    ensures
        extends(fin, before),
        closed_from(fin, before.len() as int),
        ref_keys(fin).contains(pushed.last().0@),
{
    assert forall|i: int| 0 <= i < before.len() implies fin[i] == before[i] by {
        assert(pushed[i] == before[i]);
    }
    assert(fin[before.len() as int] == pushed.last());
    assert(ref_keys(fin)[before.len() as int] == pushed.last().0@);
    assert forall|i: int, q: Seq<char>|
        before.len() <= i < fin.len() && #[trigger] refs_in(*fin[i].1).contains(q) implies ref_keys(fin).contains(q) by {
        if i == before.len() {
            assert(refs_in(*pushed.last().1).contains(q));
        }
    }
}

proof fn lemma_child_collected(
    cur: Seq<(String, &Json)>,
    fin: Seq<(String, &Json)>,
    start: Seq<(String, &Json)>,
    done: Seq<Seq<char>>,
    next: Seq<Seq<char>>,
)
    requires
        extends(cur, start),
        extends(fin, cur),
        closed_from(cur, start.len() as int),
        closed_from(fin, cur.len() as int),
        forall|q: Seq<char>| #[trigger] done.contains(q) ==> ref_keys(cur).contains(q),
        forall|q: Seq<char>| #[trigger] next.contains(q) ==> ref_keys(fin).contains(q),
    ensures
        extends(fin, start),
        closed_from(fin, start.len() as int),
        forall|q: Seq<char>| #[trigger] (done + next).contains(q) ==> ref_keys(fin).contains(q),
        forall|q: Seq<char>| ref_keys(cur).contains(q) ==> ref_keys(fin).contains(q),
{
    lemma_extend_closed(start, cur, fin, start.len() as int);
    lemma_keys_grow(cur, fin);
    assert forall|q: Seq<char>| #[trigger] (done + next).contains(q) implies ref_keys(fin).contains(q) by {
        lemma_concat_contains(done, next, q);
    }
}

/// Collects the local references met in `value` and, in turn, in their targets.
fn collect_refs<'a>(
    value: &'a Json,
    root: &'a Json,
    Ghost(fragment): Ghost<Json>,
    referenced: &mut Vec<(String, &'a Json)>,
) -> (r: Result<(), ToolError>)
    requires
        refs_bounded(old(referenced)@, *root, fragment),
        forall|q: Seq<char>|
            #[trigger] refs_in(*value).contains(q) ==> needed_ref(*root, fragment, q) && all_refs(
                *root,
                fragment,
            ).contains(q),
    ensures
        match r {
            Ok(()) => {
                &&& refs_bounded(final(referenced)@, *root, fragment)
                &&& extends(final(referenced)@, old(referenced)@)
                &&& forall|q: Seq<char>|
                    #[trigger] refs_in(*value).contains(q) ==> ref_keys(final(referenced)@).contains(q)
                &&& closed_from(final(referenced)@, old(referenced)@.len() as int)
            },
            Err(e) => reports_unresolved(e, *root, fragment),
        },
    decreases all_refs(*root, fragment).len() - old(referenced)@.len(), value,
{
    let ghost start = referenced@;
    proof {
        lemma_bounded_len(referenced@, *root, fragment);
    }
    match value {
        Json::Object(ms) => {
            if let Some(Json::Str(reference)) = get_member(value, "$ref") {
                let chars = chars_of(reference.as_str());
                if chars.len() > 0 && chars[0] == '#' && !collected(referenced, reference.as_str()) {
                    let pointer = string_of_range(&chars, 1, chars.len());
                    assert(pointer@ =~= reference@.drop_first());
                    assert(local_ref(*value) == Some(reference@));
                    assert(refs_in(*value)[0] == reference@);
                    assert(refs_in(*value).contains(reference@));
                    let target = match lookup(root, pointer.as_str()) {
                        Some(t) => t,
                        None => {
                            let e = unresolved_reference(reference.as_str());
                            assert(needed_ref(*root, fragment, reference@));
                            return Err(e);
                        },
                    };
                    referenced.push((reference.clone(), target));
                    let ghost pushed = referenced@;
                    proof {
                        assert(pushed.last().0@ == reference@);
                        assert(extends(pushed, start));
                        lemma_push_bounded(start, pushed, *root, fragment);
                        lemma_bounded_len(pushed, *root, fragment);
                        lemma_resolve_refs(*root, reference@.drop_first(), *target);
                        assert forall|q: Seq<char>| #[trigger] refs_in(*target).contains(q) implies needed_ref(
                            *root,
                            fragment,
                            q,
                        ) && all_refs(*root, fragment).contains(q) by {
                            assert(ref_leads(*root, reference@, q));
                            lemma_needed_leads(*root, fragment, reference@, q);
                            lemma_concat_contains(refs_in(fragment), refs_in(*root), q);
                        }
                    }
                    match collect_refs(target, root, Ghost(fragment), referenced) {
                        Ok(()) => {},
                        Err(e) => {
                            return Err(e);
                        },
                    }
                    proof {
                        lemma_closed_after_target(start, pushed, referenced@, *root, fragment);
                    }
                }
            }
            assert(local_ref(*value) matches Some(r) ==> ref_keys(referenced@).contains(r));
            let ghost own: Seq<Seq<char>> = match local_ref(*value) {
                Some(r) => seq![r],
                None => Seq::empty(),
            };
            assert(refs_in(*value) == own + member_refs(*value, ms@.len() as int));
            assert(forall|q: Seq<char>| #[trigger] own.contains(q) ==> ref_keys(referenced@).contains(q));
            assert(member_refs(*value, 0) =~= Seq::<Seq<char>>::empty());
            assert(own + member_refs(*value, 0) =~= own);
            let mut i: usize = 0;
            while i < ms.len()
                invariant
                    *value == Json::Object(*ms),
                    i <= ms@.len(),
                    refs_bounded(referenced@, *root, fragment),
                    extends(referenced@, start),
                    closed_from(referenced@, start.len() as int),
                    start == old(referenced)@,
                    start.len() <= all_refs(*root, fragment).len(),
                    refs_in(*value) == own + member_refs(*value, ms@.len() as int),
                    forall|q: Seq<char>|
                        #[trigger] (own + member_refs(*value, i as int)).contains(q) ==> ref_keys(
                            referenced@,
                        ).contains(q),
                    forall|q: Seq<char>|
                        #[trigger] refs_in(*value).contains(q) ==> needed_ref(*root, fragment, q)
                            && all_refs(*root, fragment).contains(q),
                decreases ms@.len() - i,
            {
                let ghost cur = referenced@;
                proof {
                    lemma_bounded_len(referenced@, *root, fragment);
                    lemma_member_in_object(*value, i as int);
                    assert forall|q: Seq<char>| #[trigger] refs_in(ms@[i as int].value).contains(q) implies needed_ref(
                        *root,
                        fragment,
                        q,
                    ) && all_refs(*root, fragment).contains(q) by {
                        assert(refs_in(*value).contains(q));
                    }
                    assert(decreases_to!(*value => ms@[i as int].value));
                }
                match collect_refs(&ms[i].value, root, Ghost(fragment), referenced) {
                    Ok(()) => {},
                    Err(e) => {
                        return Err(e);
                    },
                }
                proof {
                    lemma_child_collected(
                        cur,
                        referenced@,
                        start,
                        own + member_refs(*value, i as int),
                        refs_in(ms@[i as int].value),
                    );
                    assert(member_refs(*value, i + 1) == member_refs(*value, i as int) + refs_in(
                        ms@[i as int].value,
                    ));
                    assert(own + member_refs(*value, i + 1) =~= (own + member_refs(*value, i as int))
                        + refs_in(ms@[i as int].value));
                }
                i = i + 1;
            }
            assert forall|q: Seq<char>| #[trigger] refs_in(*value).contains(q) implies ref_keys(referenced@).contains(q) by {
                assert((own + member_refs(*value, i as int)).contains(q));
            }
            Ok(())
        },
        Json::Array(items) => {
            assert(item_refs(*value, 0) =~= Seq::<Seq<char>>::empty());
            let mut i: usize = 0;
            while i < items.len()
                invariant
                    *value == Json::Array(*items),
                    i <= items@.len(),
                    refs_bounded(referenced@, *root, fragment),
                    extends(referenced@, start),
                    closed_from(referenced@, start.len() as int),
                    start == old(referenced)@,
                    start.len() <= all_refs(*root, fragment).len(),
                    forall|q: Seq<char>|
                        #[trigger] item_refs(*value, i as int).contains(q) ==> ref_keys(
                            referenced@,
                        ).contains(q),
                    forall|q: Seq<char>|
                        #[trigger] refs_in(*value).contains(q) ==> needed_ref(*root, fragment, q)
                            && all_refs(*root, fragment).contains(q),
                decreases items@.len() - i,
            {
                let ghost cur = referenced@;
                proof {
                    assert(decreases_to!(*value => (*value)->Array_0));
                    assert(decreases_to!(*items => items@));
                    assert(decreases_to!(items@ => items@[i as int]));
                    lemma_bounded_len(referenced@, *root, fragment);
                    lemma_item_refs_has(*value, items@.len() as int, i as int);
                    assert forall|q: Seq<char>| #[trigger] refs_in(items@[i as int]).contains(q) implies needed_ref(
                        *root,
                        fragment,
                        q,
                    ) && all_refs(*root, fragment).contains(q) by {
                        assert(item_refs(*value, items@.len() as int).contains(q));
                        assert(refs_in(*value).contains(q));
                    }
                }
                match collect_refs(&items[i], root, Ghost(fragment), referenced) {
                    Ok(()) => {},
                    Err(e) => {
                        return Err(e);
                    },
                }
                proof {
                    lemma_child_collected(
                        cur,
                        referenced@,
                        start,
                        item_refs(*value, i as int),
                        refs_in(items@[i as int]),
                    );
                    assert(item_refs(*value, i + 1) == item_refs(*value, i as int) + refs_in(
                        items@[i as int],
                    ));
                }
                i = i + 1;
            }
            assert forall|q: Seq<char>| #[trigger] refs_in(*value).contains(q) implies ref_keys(referenced@).contains(q) by {
                assert(item_refs(*value, i as int).contains(q));
            }
            Ok(())
        },
        _ => {
            assert(refs_in(*value) =~= Seq::<Seq<char>>::empty());
            Ok(())
        },
    }
}

/// The local references a schema fragment needs (those met in the fragment
/// and, in turn, in the targets of the references it needs), each with its
/// target in the whole schema, in the order they are first met. A needed
/// reference whose target the schema lacks refuses the read.
pub fn schema_references<'a>(fragment: &'a Json, root: &'a Json) -> (r: Result<
    Vec<(String, &'a Json)>,
    ToolError,
>)
    ensures
        match r {
            Ok(rs) => {
                &&& refs_sound(rs@, *root, *fragment)
                &&& forall|q: Seq<char>| needed_ref(*root, *fragment, q) <==> ref_keys(rs@).contains(q)
            },
            Err(e) => reports_unresolved(e, *root, *fragment),
        },
        r is Ok <==> forall|q: Seq<char>|
            needed_ref(*root, *fragment, q) ==> resolve(*root, q.drop_first()) is Some,
{
    let mut referenced: Vec<(String, &'a Json)> = Vec::new();
    proof {
        assert(ref_keys(referenced@) =~= Seq::<Seq<char>>::empty());
        assert forall|q: Seq<char>| #[trigger] refs_in(*fragment).contains(q) implies needed_ref(
            *root,
            *fragment,
            q,
        ) && all_refs(*root, *fragment).contains(q) by {
            assert forall|s: Set<Seq<char>>| #[trigger] ref_closed(*root, *fragment, s) implies s.contains(q) by {}
            lemma_concat_contains(refs_in(*fragment), refs_in(*root), q);
        }
    }
    match collect_refs(fragment, root, Ghost(*fragment), &mut referenced) {
        Ok(()) => {
            proof {
                let rs = referenced@;
                let keys = Set::new(|q: Seq<char>| ref_keys(rs).contains(q));
                assert forall|x: Seq<char>, q: Seq<char>| keys.contains(x) && #[trigger] ref_leads(*root, x, q) implies keys.contains(q) by {
                    let j = choose|j: int| 0 <= j < ref_keys(rs).len() && ref_keys(rs)[j] == x;
                    assert(rs[j].0@ == x);
                    assert(refs_in(*rs[j].1).contains(q));
                }
                assert(ref_closed(*root, *fragment, keys));
                assert forall|q: Seq<char>| needed_ref(*root, *fragment, q) <==> ref_keys(rs).contains(q) by {
                    if ref_keys(rs).contains(q) {
                        let j = choose|j: int| 0 <= j < ref_keys(rs).len() && ref_keys(rs)[j] == q;
                        assert(rs[j].0@ == q);
                    }
                }
                assert forall|q: Seq<char>| needed_ref(*root, *fragment, q) implies resolve(*root, q.drop_first()) is Some by {
                    let j = choose|j: int| 0 <= j < ref_keys(rs).len() && ref_keys(rs)[j] == q;
                    assert(rs[j].0@ == q);
                }
            }
            Ok(referenced)
        },
        Err(e) => {
            proof {
                let w = choose|w: Seq<char>|
                    #[trigger] needed_ref(*root, *fragment, w) && w.len() > 0 && w[0] == '#' && resolve(
                        *root,
                        w.drop_first(),
                    ) is None && e.is_coded(ErrorCode::CatalogSchemaReferenceInvalid) && e.message@
                        == unresolved_message(w);
                assert(needed_ref(*root, *fragment, w));
            }
            Err(e)
        },
    }
}


// ---------------------------------------------------------------------------
// Schema reads
// ---------------------------------------------------------------------------

/// An installed component release and its configuration schema.
#[derive(Debug)]
pub struct CatalogSchemaEntry {
    pub id: String,
    pub version: String,
    pub config_version: String,
    pub config_schema_digest: String,
    pub config_schema: Json,
}

/// A configuration-schema read: the entry read, whether a fragment was read,
/// the selected schema and the local references it needs with their targets.
#[derive(Debug)]
pub struct ConfigSchemaRead<'a> {
    pub entry: usize,
    pub fragment: bool,
    pub schema: &'a Json,
    pub referenced_schemas: Vec<(String, &'a Json)>,
}

/// The ID and version of each schema entry.
pub open spec fn schema_entry_views(es: Seq<CatalogSchemaEntry>) -> Seq<(Seq<char>, Seq<char>)> {
    es.map_values(|e: CatalogSchemaEntry| (e.id@, e.version@))
}

fn entry_keys(entries: &Vec<CatalogSchemaEntry>) -> (r: Vec<CatalogEntryKey>)
    ensures
        entry_views(r@) == schema_entry_views(entries@),
{
    let mut r: Vec<CatalogEntryKey> = Vec::new();
    let mut i: usize = 0;
    while i < entries.len()
        invariant
            i <= entries@.len(),
            entry_views(r@) == schema_entry_views(entries@.take(i as int)),
        decreases entries@.len() - i,
    {
        let ghost before = r@;
        r.push(CatalogEntryKey { id: entries[i].id.clone(), version: entries[i].version.clone() });
        assert(entry_views(r@) =~= entry_views(before).push((entries@[i as int].id@, entries@[i as int].version@)));
        assert(schema_entry_views(entries@.take(i + 1)) =~= schema_entry_views(entries@.take(i as int)).push(
            (entries@[i as int].id@, entries@[i as int].version@),
        ));
        i = i + 1;
    }
    assert(entries@.take(i as int) =~= entries@);
    r
}

/// Reads an installed release's configuration schema, or the fragment a
/// pointer selects, with the local references the fragment needs.
pub fn catalog_config_schema<'a>(request: &CatalogConfigSchemaRequest, entries: &'a Vec<CatalogSchemaEntry>) -> (r: Result<
    ConfigSchemaRead<'a>,
    ToolError,
>)
    ensures
        !(request.pointer@.len() == 0 || request.pointer@[0] == '/') ==> (r matches Err(e) && e.is_coded(
            ErrorCode::CatalogSchemaPointerInvalid,
        )),
        (request.pointer@.len() == 0 || request.pointer@[0] == '/') ==> match first_entry(
            schema_entry_views(entries@),
            request.id@,
            request.version@,
        ) {
            None => r matches Err(e) && e.kind == ErrorKind::ResourceNotFound && e.code == Some(
                ErrorCode::CatalogEntryNotFound,
            ) && e.message@ == entry_not_found_message(
                schema_entry_views(entries@),
                request.id@,
                request.version@,
            ),
            Some(k) => match resolve(entries@[k].config_schema, request.pointer@) {
                None => r matches Err(e) && e.kind == ErrorKind::ResourceNotFound && e.code == Some(
                    ErrorCode::CatalogSchemaPointerNotFound,
                ) && e.message@ == "configuration schema pointer "@ + debug_text(request.pointer@)
                    + " was not found for "@ + debug_text(request.id@) + " version "@ + debug_text(
                    request.version@,
                ),
                Some(f) => {
                    let root = entries@[k].config_schema;
                    &&& match r {
                        Ok(read) => {
                            &&& read.entry == k
                            &&& read.fragment == (request.pointer@.len() > 0)
                            &&& *read.schema == f
                            &&& refs_sound(read.referenced_schemas@, root, f)
                            &&& forall|q: Seq<char>|
                                needed_ref(root, f, q) <==> ref_keys(read.referenced_schemas@).contains(q)
                        },
                        Err(e) => reports_unresolved(e, root, f),
                    }
                    &&& (r is Ok <==> forall|q: Seq<char>|
                        needed_ref(root, f, q) ==> resolve(root, q.drop_first()) is Some)
                },
            },
        },
{
    match check_schema_pointer(request.pointer.as_str()) {
        Ok(()) => {},
        Err(e) => {
            return Err(e);
        },
    }
    let keys = entry_keys(entries);
    let k = match exact_catalog_entry(&keys, request.id.as_str(), request.version.as_str()) {
        Ok(k) => k,
        Err(e) => {
            return Err(e);
        },
    };
    proof {
        crate::catalog::lemma_first_entry_bounds(entry_views(keys@), request.id@, request.version@);
    }
    let root = &entries[k].config_schema;
    let fragment = match config_schema_fragment(
        root,
        request.pointer.as_str(),
        request.id.as_str(),
        request.version.as_str(),
    ) {
        Ok(f) => f,
        Err(e) => {
            return Err(e);
        },
    };
    match schema_references(fragment, root) {
        Ok(referenced_schemas) => Ok(
            ConfigSchemaRead {
                entry: k,
                fragment: request.pointer.as_str().unicode_len() > 0,
                schema: fragment,
                referenced_schemas,
            },
        ),
        Err(e) => Err(e),
    }
}

} // verus!
