//! Provider-portable tool input schemas: when a `oneOf` of tagged object
//! variants may be written as the equivalent `anyOf`.
use crate::json::{Json, get_member, member_value};
use crate::schema::{lemma_concat_contains, string_items};
use crate::text::{chars_eq, chars_of, str_eq};
use vstd::prelude::*;

verus! {

broadcast use vstd::string::group_string_axioms;

/// The string a branch's `properties[tag].const` holds.
pub open spec fn tag_const(branch: Json, tag: Seq<char>) -> Option<Seq<char>> {
    match member_value(branch, "properties"@) {
        Some(properties) => match member_value(properties, tag) {
            Some(property) => match member_value(property, "const"@) {
                Some(Json::Str(s)) => Some(s@),
                _ => None,
            },
            None => None,
        },
        None => None,
    }
}

/// A branch is an object variant that requires `tag` and fixes it to a string.
pub open spec fn tagged_by(branch: Json, tag: Seq<char>) -> bool {
    &&& member_value(branch, "type"@) matches Some(Json::Str(t)) && t@ == "object"@
    &&& member_value(branch, "required"@) matches Some(Json::Array(required)) && string_items(
        required@,
    ).contains(tag)
    &&& tag_const(branch, tag) is Some
}

/// Every branch is tagged by `tag`, each with a value of its own.
pub open spec fn tag_separates(branches: Seq<Json>, tag: Seq<char>) -> bool {
    &&& forall|i: int| 0 <= i < branches.len() ==> tagged_by(#[trigger] branches[i], tag)
    &&& forall|i: int, j: int|
        0 <= i < j < branches.len() ==> tag_const(#[trigger] branches[i], tag) != tag_const(
            #[trigger] branches[j],
            tag,
        )
}

/// Some property of the first branch separates all branches.
pub open spec fn disjoint_tags_spec(branches: Seq<Json>) -> bool {
    branches.len() > 0 && match member_value(branches[0], "properties"@) {
        Some(Json::Object(ms)) => exists|k: int|
            0 <= k < ms@.len() && tag_separates(branches, #[trigger] ms@[k].key@),
        _ => false,
    }
}

/// A schema whose `oneOf` may become `anyOf`: it has no `anyOf` of its own
/// and its `oneOf` branches are disjoint tagged variants.
pub open spec fn rewrites_one_of_spec(schema: Json) -> bool {
    member_value(schema, "anyOf"@) is None && match member_value(schema, "oneOf"@) {
        Some(Json::Array(branches)) => disjoint_tags_spec(branches@),
        _ => false,
    }
}

fn tag_const_exec<'a>(branch: &'a Json, tag: &str) -> (r: Option<&'a String>)
    ensures
        match r {
            Some(s) => tag_const(*branch, tag@) == Some(s@),
            None => tag_const(*branch, tag@) is None,
        },
{
    match get_member(branch, "properties") {
        Some(properties) => match get_member(properties, tag) {
            Some(property) => match get_member(property, "const") {
                Some(Json::Str(s)) => Some(s),
                _ => None,
            },
            None => None,
        },
        None => None,
    }
}

fn requires_tag(required: &Vec<Json>, tag: &str) -> (r: bool)
    ensures
        r == string_items(required@).contains(tag@),
{
    let mut i: usize = 0;
    while i < required.len()
        invariant
            i <= required@.len(),
            !string_items(required@.take(i as int)).contains(tag@),
        decreases required@.len() - i,
    {
        assert(required@.take(i + 1).drop_last() =~= required@.take(i as int));
        assert(required@.take(i + 1).last() == required@[i as int]);
        let ghost prev = string_items(required@.take(i as int));
        let ghost tail: Seq<Seq<char>> = match required@[i as int] {
            Json::Str(t) => seq![t@],
            _ => Seq::empty(),
        };
        assert(string_items(required@.take(i + 1)) == prev + tail);
        proof {
            lemma_concat_contains(prev, tail, tag@);
        }
        if let Json::Str(s) = &required[i] {
            if str_eq(s.as_str(), tag) {
                assert(tail[0] == tag@);
                proof {
                    lemma_items_prefix_contains(required@, i + 1, tag@);
                }
                return true;
            }
        }
        i = i + 1;
    }
    assert(required@.take(i as int) =~= required@);
    false
}

proof fn lemma_items_prefix_contains(items: Seq<Json>, n: int, s: Seq<char>)
    requires
        0 <= n <= items.len(),
        string_items(items.take(n)).contains(s),
    ensures
        string_items(items).contains(s),
    decreases items.len() - n,
{
    if n < items.len() {
        assert(items.take(n + 1).drop_last() =~= items.take(n));
        let j = choose|j: int| 0 <= j < string_items(items.take(n)).len() && string_items(items.take(n))[j] == s;
        assert(string_items(items.take(n + 1))[j] == s);
        lemma_items_prefix_contains(items, n + 1, s);
    } else {
        assert(items.take(n) =~= items);
    }
}

fn is_object_type(branch: &Json) -> (r: bool)
    ensures
        r == (member_value(*branch, "type"@) matches Some(Json::Str(t)) && t@ == "object"@),
{
    match get_member(branch, "type") {
        Some(Json::Str(t)) => str_eq(t.as_str(), "object"),
        _ => false,
    }
}

fn branch_tagged(branch: &Json, tag: &str) -> (r: bool)
    ensures
        r == tagged_by(*branch, tag@),
{
    if !is_object_type(branch) {
        return false;
    }
    let required_ok = match get_member(branch, "required") {
        Some(Json::Array(required)) => requires_tag(required, tag),
        _ => false,
    };
    required_ok && tag_const_exec(branch, tag).is_some()
}

/// Whether `tag` separates the branches, checked branch by branch.
#[verifier::loop_isolation(false)]
fn separates(branches: &Vec<Json>, tag: &str) -> (r: bool)
    ensures
        r == tag_separates(branches@, tag@),
{
    let mut seen: Vec<&String> = Vec::new();
    let mut i: usize = 0;
    while i < branches.len()
        invariant
            i <= branches@.len(),
            seen@.len() == i,
            forall|k: int| 0 <= k < i ==> tagged_by(#[trigger] branches@[k], tag@),
            forall|k: int| 0 <= k < i ==> tag_const(branches@[k], tag@) == Some((#[trigger] seen@[k])@),
            forall|a: int, b: int| 0 <= a < b < i ==> (#[trigger] seen@[a])@ != (#[trigger] seen@[b])@,
        decreases branches@.len() - i,
    {
        if !branch_tagged(&branches[i], tag) {
            return false;
        }
        let value = match tag_const_exec(&branches[i], tag) {
            Some(v) => v,
            None => {
                return false;
            },
        };
        let chars = chars_of(value.as_str());
        let mut j: usize = 0;
        while j < seen.len()
            invariant
                j <= seen@.len(),
                seen@.len() == i,
                chars@ == value@,
                forall|k: int| 0 <= k < j ==> (#[trigger] seen@[k])@ != value@,
            decreases seen@.len() - j,
        {
            let other = chars_of(seen[j].as_str());
            if chars_eq(other.as_slice(), chars.as_slice()) {
                assert(tag_const(branches@[j as int], tag@) == tag_const(branches@[i as int], tag@));
                return false;
            }
            j = j + 1;
        }
        seen.push(value);
        i = i + 1;
    }
    assert forall|a: int, b: int| 0 <= a < b < branches@.len() implies tag_const(
        #[trigger] branches@[a],
        tag@,
    ) != tag_const(#[trigger] branches@[b], tag@) by {
        assert(seen@[a]@ != seen@[b]@);
    }
    true
}

/// Whether the branches are disjoint tagged variants: some property of the
/// first branch is required by every branch, is an object variant's tag, and
/// takes a different constant string in each.
#[verifier::loop_isolation(false)]
pub fn disjoint_tags(branches: &Vec<Json>) -> (r: bool)
    ensures
        r == disjoint_tags_spec(branches@),
{
    if branches.len() == 0 {
        return false;
    }
    match get_member(&branches[0], "properties") {
        Some(Json::Object(ms)) => {
            let mut k: usize = 0;
            while k < ms.len()
                invariant
                    k <= ms@.len(),
                    member_value(branches@[0], "properties"@) == Some(Json::Object(*ms)),
                    forall|m: int| 0 <= m < k ==> !tag_separates(branches@, #[trigger] ms@[m].key@),
                decreases ms@.len() - k,
            {
                if separates(branches, ms[k].key.as_str()) {
                    return true;
                }
                k = k + 1;
            }
            false
        },
        _ => false,
    }
}

/// Whether a schema's `oneOf` may be written as `anyOf`.
pub fn rewrites_one_of(schema: &Json) -> (r: bool)
    ensures
        r == rewrites_one_of_spec(*schema),
{
    if get_member(schema, "anyOf").is_some() {
        return false;
    }
    match get_member(schema, "oneOf") {
        Some(Json::Array(branches)) => disjoint_tags(branches),
        _ => false,
    }
}

} // verus!
