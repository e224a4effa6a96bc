//! RFC 6901 JSON pointers: syntax checks, key escaping, and the recovery
//! hints of a missing pointer.
use crate::error::{ErrorCode, ToolError, coded_invalid_request};
use crate::json::{Json, JsonMember, lookup, resolve};
use crate::text::{
    byte_len, byte_len_of, chars_of, chars_range, join, last_index_exec, lemma_last_index_of_bounds, push_char, rsplit_once,
    string_of, string_views,
};
use vstd::prelude::*;

verus! {

broadcast use vstd::string::group_string_axioms;

/// Every `~` is followed by `0` or `1`.
pub open spec fn escapes_ok(s: Seq<char>) -> bool {
    forall|i: int|
        0 <= i < s.len() && #[trigger] s[i] == '~' ==> i + 1 < s.len() && (s[i + 1] == '0' || s[i
            + 1] == '1')
}

/// A pointer is empty or starts with `/`, fits 4096 bytes and escapes `~` properly.
pub open spec fn pointer_ok(p: Seq<char>) -> bool {
    &&& byte_len(p) <= 4096
    &&& (p.len() == 0 || p[0] == '/')
    &&& escapes_ok(p)
}

/// Checks an RFC 6901 pointer of at most 4096 bytes.
pub fn validate_pointer(pointer: &str) -> (r: Result<(), ToolError>)
    ensures
        r is Ok <==> pointer_ok(pointer@),
        r matches Err(e) ==> e.is_coded(ErrorCode::InvalidJsonPointer),
{
    let chars = chars_of(pointer);
    if byte_len_of(pointer) > 4096 || (chars.len() > 0 && chars[0] != '/') {
        return Err(
            coded_invalid_request(
                ErrorCode::InvalidJsonPointer,
                "Use an RFC 6901 pointer of at most 4096 bytes, such as /artifact/content/stdout",
            ),
        );
    }
    let mut i: usize = 0;
    while i < chars.len()
        invariant
            i <= chars@.len(),
            chars@ == pointer@,
            forall|k: int|
                0 <= k < i && #[trigger] chars@[k] == '~' ==> k + 1 < chars@.len() && (chars@[k
                    + 1] == '0' || chars@[k + 1] == '1'),
            i > 0 ==> chars@[i - 1] != '~' || (i >= 2 && chars@[i - 2] == '~'),
            forall|k: int| 0 <= k < i && #[trigger] chars@[k] == '~' ==> k + 1 < i,
        decreases chars@.len() - i,
    {
        if chars[i] == '~' {
            if i + 1 >= chars.len() || !(chars[i + 1] == '0' || chars[i + 1] == '1') {
                return Err(
                    coded_invalid_request(
                        ErrorCode::InvalidJsonPointer,
                        "Escape ~ as ~0 and / inside a key as ~1",
                    ),
                );
            }
            i = i + 2;
        } else {
            i = i + 1;
        }
    }
    Ok(())
}

// ---------------------------------------------------------------------------
// Key escaping
// ---------------------------------------------------------------------------

/// A key as one pointer segment: `~` becomes `~0`, then `/` becomes `~1`.
pub open spec fn escape_key(k: Seq<char>) -> Seq<char>
    decreases k.len(),
{
    if k.len() == 0 {
        Seq::<char>::empty()
    } else {
        let head = if k[0] == '~' {
            seq!['~', '0']
        } else if k[0] == '/' {
            seq!['~', '1']
        } else {
            seq![k[0]]
        };
        head + escape_key(k.drop_first())
    }
}

/// A pointer segment back to its key: `~1` is `/` and `~0` is `~`.
pub open spec fn unescape_segment(s: Seq<char>) -> Seq<char>
    decreases s.len(),
{
    if s.len() == 0 {
        Seq::<char>::empty()
    } else if s.len() >= 2 && s[0] == '~' && s[1] == '1' {
        seq!['/'] + unescape_segment(s.skip(2))
    } else if s.len() >= 2 && s[0] == '~' && s[1] == '0' {
        seq!['~'] + unescape_segment(s.skip(2))
    } else {
        seq![s[0]] + unescape_segment(s.drop_first())
    }
}

/// Escaping a key yields one well-formed pointer segment that decodes back to the key.
pub proof fn lemma_escape_key_round_trip(k: Seq<char>)
    ensures
        unescape_segment(escape_key(k)) == k,
        forall|i: int| 0 <= i < escape_key(k).len() ==> escape_key(k)[i] != '/',
        escapes_ok(escape_key(k)),
    decreases k.len(),
{
    if k.len() > 0 {
        lemma_escape_key_round_trip(k.drop_first());
        let rest = escape_key(k.drop_first());
        let head = if k[0] == '~' {
            seq!['~', '0']
        } else if k[0] == '/' {
            seq!['~', '1']
        } else {
            seq![k[0]]
        };
        let e = head + rest;
        assert(escape_key(k) == e);
        if head.len() == 2 {
            assert(e.skip(2) =~= rest);
        } else {
            assert(e.drop_first() =~= rest);
        }
        assert(seq![k[0]] + k.drop_first() =~= k);
        assert forall|i: int| 0 <= i < e.len() implies e[i] != '/' by {
            if i >= head.len() {
                assert(e[i] == rest[i - head.len()]);
            }
        }
        assert forall|i: int| 0 <= i < e.len() && #[trigger] e[i] == '~' implies i + 1 < e.len() && (e[i + 1]
            == '0' || e[i + 1] == '1') by {
            if i >= head.len() {
                assert(e[i] == rest[i - head.len()]);
                assert(e[i + 1] == rest[i + 1 - head.len()]);
            }
        }
    }
}

/// Escapes a key for use as one pointer segment.
pub fn escape_pointer_key(key: &str) -> (r: String)
    ensures
        r@ == escape_key(key@),
{
    let chars = chars_of(key);
    let mut out = String::new();
    let mut j: usize = 0;
    assert(chars@.skip(0) =~= key@);
    assert(out@ + escape_key(key@) =~= escape_key(key@));
    while j < chars.len()
        invariant
            j <= chars@.len(),
            chars@ == key@,
            out@ + escape_key(chars@.skip(j as int)) == escape_key(key@),
        decreases chars@.len() - j,
    {
        let c = chars[j];
        let ghost rest = chars@.skip(j as int);
        assert(rest[0] == c);
        assert(rest.drop_first() =~= chars@.skip(j + 1));
        if c == '~' {
            push_char(&mut out, '~');
            push_char(&mut out, '0');
        } else if c == '/' {
            push_char(&mut out, '~');
            push_char(&mut out, '1');
        } else {
            push_char(&mut out, c);
        }
        j = j + 1;
        proof {
            let head = if c == '~' {
                seq!['~', '0']
            } else if c == '/' {
                seq!['~', '1']
            } else {
                seq![c]
            };
            assert(escape_key(rest) == head + escape_key(chars@.skip(j as int)));
        }
        assert(out@ + escape_key(chars@.skip(j as int)) =~= escape_key(key@));
    }
    assert(chars@.skip(j as int) =~= Seq::<char>::empty());
    assert(out@ + Seq::<char>::empty() =~= out@);
    out
}

// ---------------------------------------------------------------------------
// Recovery hints for a missing pointer
// ---------------------------------------------------------------------------

/// The parent pointer: everything before the last `/` (empty at the root).
pub open spec fn pointer_parent_spec(p: Seq<char>) -> Seq<char> {
    match rsplit_once(p, '/') {
        Some((prefix, _)) => prefix,
        None => Seq::<char>::empty(),
    }
}

/// Strips the last segment of a pointer.
pub fn pointer_parent(pointer: &str) -> (r: String)
    ensures
        r@ == pointer_parent_spec(pointer@),
        pointer@.len() > 0 ==> r@.len() < pointer@.len(),
{
    let chars = chars_of(pointer);
    match last_index_exec(&chars, '/') {
        Some(i) => {
            let r = chars_range(&chars, 0, i);
            assert(r@ =~= chars@.take(i as int));
            string_of(&r)
        },
        None => String::new(),
    }
}

/// Escapes each available key beneath `parent` (at most sixteen) as a pointer
/// and joins them with `, `.
pub fn available_pointers(parent: &str, keys: &Vec<String>) -> (r: String)
    ensures
        r@ == join_list(
            available_spec(parent@, string_views(keys@).take(if keys@.len() < 16 { keys@.len() as int } else { 16 })),
        ),
{
    let n: usize = if keys.len() < 16 { keys.len() } else { 16 };
    let mut out = String::new();
    let mut i: usize = 0;
    let ghost ks = string_views(keys@).take(n as int);
    while i < n
        invariant
            i <= n <= keys@.len(),
            n == (if keys@.len() < 16 { keys@.len() } else { 16 }),
            ks == string_views(keys@).take(n as int),
            out@ == join_list(available_spec(parent@, ks.take(i as int))),
        decreases n - i,
    {
        if i > 0 {
            push_char(&mut out, ',');
            push_char(&mut out, ' ');
        }
        out.append(parent);
        push_char(&mut out, '/');
        let escaped = escape_pointer_key(keys[i].as_str());
        out.append(escaped.as_str());
        proof {
            let pre = ks.take(i as int);
            let next = ks.take(i + 1);
            assert(next.drop_last() =~= pre);
            assert(next.last() == keys@[i as int]@);
            assert(available_spec(parent@, next) =~= available_spec(parent@, pre).push(
                parent@ + seq!['/'] + escape_key(keys@[i as int]@),
            ));
            lemma_join_list_push(available_spec(parent@, pre), parent@ + seq!['/'] + escape_key(keys@[i as int]@));
        }
        i = i + 1;
        assert(out@ =~= join_list(available_spec(parent@, ks.take(i as int))));
    }
    assert(ks.take(n as int) =~= ks);
    out
}

pub open spec fn available_spec(parent: Seq<char>, keys: Seq<Seq<char>>) -> Seq<Seq<char>> {
    keys.map_values(|k: Seq<char>| parent + seq!['/'] + escape_key(k))
}

/// Items joined by `, `.
pub open spec fn join_list(items: Seq<Seq<char>>) -> Seq<char>
    decreases items.len(),
{
    if items.len() == 0 {
        Seq::<char>::empty()
    } else if items.len() == 1 {
        items[0]
    } else {
        join_list(items.drop_last()) + seq![',', ' '] + items.last()
    }
}

proof fn lemma_join_list_push(items: Seq<Seq<char>>, x: Seq<char>)
    ensures
        join_list(items.push(x)) == if items.len() == 0 {
            x
        } else {
            join_list(items) + seq![',', ' '] + x
        },
{
    assert(items.push(x).drop_last() =~= items);
}

/// Whether a section read takes the whole section (`true`) or a pointer within it.
pub fn evidence_pointer_check(pointer: &str) -> (r: Result<bool, ToolError>)
    ensures
        match r {
            Ok(whole) => whole == (pointer@.len() == 0) && (pointer@.len() == 0 || pointer@[0] == '/'),
            Err(e) => pointer@.len() > 0 && pointer@[0] != '/' && e.is_coded(ErrorCode::EvidencePointerInvalid),
        },
{
    let chars = chars_of(pointer);
    if chars.len() == 0 {
        return Ok(true);
    }
    if chars[0] != '/' {
        return Err(
            coded_invalid_request(
                ErrorCode::EvidencePointerInvalid,
                "JSON Pointer must be empty or start with '/'",
            ),
        );
    }
    Ok(false)
}

/// The recovery list of a missing evidence pointer: the available pointers
/// beneath the nearest existing ancestor, or the whole-section hint.
pub open spec fn recovery_list(parent: Seq<char>, keys: Option<Seq<Seq<char>>>) -> Seq<char> {
    match keys {
        Some(ks) if ks.len() > 0 => join_list(
            available_spec(parent, ks.take(if ks.len() < 16 { ks.len() as int } else { 16 })),
        ),
        _ => "the empty pointer for the whole section"@,
    }
}

/// The message of an evidence pointer that selects nothing: it names the
/// pointer, the section, the nearest existing ancestor and up to sixteen
/// pointers beneath it.
pub open spec fn not_found_message(
    pointer: Seq<char>,
    section: Seq<char>,
    parent: Seq<char>,
    keys: Option<Seq<Seq<char>>>,
) -> Seq<char> {
    "[evidence_pointer_not_found] JSON Pointer "@ + crate::text::debug_text(pointer)
        + " does not exist in the "@ + section
        + " section; no changes were made. Recovery: choose one of the available pointers beneath "@
        + crate::text::debug_text(parent) + " ("@ + recovery_list(parent, keys)
        + "), or use an empty pointer to read the whole section"@
}

/// The error of an evidence pointer that selects nothing.
/// `keys` are the ancestor's keys when it is an object.
pub fn evidence_pointer_not_found(
    pointer: &str,
    section: &str,
    parent: &str,
    keys: Option<&Vec<String>>,
) -> (e: ToolError)
    ensures
        e.is_coded(ErrorCode::EvidencePointerNotFound),
        e.message@ == not_found_message(
            pointer@,
            section@,
            parent@,
            match keys {
                Some(k) => Some(string_views(k@)),
                None => None,
            },
        ),
{
    let listed = match keys {
        Some(k) => if k.len() > 0 {
            available_pointers(parent, k)
        } else {
            "the empty pointer for the whole section".to_owned()
        },
        None => "the empty pointer for the whole section".to_owned(),
    };
    let mut m = String::new();
    m.append("[evidence_pointer_not_found] JSON Pointer ");
    let qp = crate::text::debug_quote(pointer);
    m.append(qp.as_str());
    m.append(" does not exist in the ");
    m.append(section);
    m.append(" section; no changes were made. Recovery: choose one of the available pointers beneath ");
    let qa = crate::text::debug_quote(parent);
    m.append(qa.as_str());
    m.append(" (");
    m.append(listed.as_str());
    m.append("), or use an empty pointer to read the whole section");
    coded_invalid_request(ErrorCode::EvidencePointerNotFound, m.as_str())
}

/// The pointer itself, or else the nearest of its ancestors that the document has.
pub open spec fn nearest_present(v: Json, p: Seq<char>) -> Seq<char>
    decreases p.len(),
{
    if p.len() == 0 || resolve(v, p) is Some {
        p
    } else {
        proof {
            lemma_last_index_of_bounds(p, '/');
        }
        nearest_present(v, pointer_parent_spec(p))
    }
}

/// The keys of an object, in order; nothing for any other value.
pub open spec fn object_keys(v: Json) -> Option<Seq<Seq<char>>> {
    match v {
        Json::Object(ms) => Some(ms@.map_values(|m: JsonMember| m.key@)),
        _ => None,
    }
}

/// The keys of the nearest ancestor that the document has.
pub open spec fn present_keys(v: Json, p: Seq<char>) -> Option<Seq<Seq<char>>> {
    match resolve(v, nearest_present(v, p)) {
        Some(a) => object_keys(a),
        None => None,
    }
}

fn member_keys(ms: &Vec<JsonMember>) -> (r: Vec<String>)
    ensures
        string_views(r@) == ms@.map_values(|m: JsonMember| m.key@),
{
    let mut r: Vec<String> = Vec::new();
    let mut i: usize = 0;
    while i < ms.len()
        invariant
            i <= ms@.len(),
            string_views(r@) == ms@.take(i as int).map_values(|m: JsonMember| m.key@),
        decreases ms@.len() - i,
    {
        let ghost before = r@;
        r.push(ms[i].key.clone());
        assert(string_views(r@) =~= string_views(before).push(ms@[i as int].key@));
        assert(ms@.take(i + 1).map_values(|m: JsonMember| m.key@) =~= ms@.take(i as int).map_values(
            |m: JsonMember| m.key@,
        ).push(ms@[i as int].key@));
        i = i + 1;
    }
    assert(ms@.take(i as int) =~= ms@);
    r
}

/// What reading a section at a pointer yields: the whole section for the
/// empty pointer, the selected value, or the error of a relative pointer or of
/// one that selects nothing.
pub open spec fn evidence_pointer_result(value: Json, pointer: Seq<char>, section: Seq<char>, r: Result<&Json, ToolError>) -> bool {
    &&& pointer.len() == 0 ==> (r matches Ok(found) && *found == value)
    &&& pointer.len() > 0 && pointer[0] != '/' ==> (r matches Err(e) && e.is_coded(
        ErrorCode::EvidencePointerInvalid,
    ))
    &&& pointer.len() > 0 && pointer[0] == '/' ==> match resolve(value, pointer) {
        Some(selected) => r matches Ok(found) && *found == selected,
        None => r matches Err(e) && e.is_coded(ErrorCode::EvidencePointerNotFound) && e.message@
            == not_found_message(pointer, section, nearest_present(value, pointer), present_keys(value, pointer)),
    }
}

/// Reads an evidence section at a pointer: the whole section for the empty
/// pointer, else the value the pointer selects; a pointer that selects nothing
/// is answered with its nearest existing ancestor and the keys beneath it.
pub fn evidence_pointer<'a>(value: &'a Json, pointer: &str, section: &str) -> (r: Result<&'a Json, ToolError>)
    ensures
        evidence_pointer_result(*value, pointer@, section@, r),
{
    let whole = match evidence_pointer_check(pointer) {
        Ok(w) => w,
        Err(e) => {
            return Err(e);
        },
    };
    if whole {
        return Ok(value);
    }
    match lookup(value, pointer) {
        Some(found) => {
            return Ok(found);
        },
        None => {},
    }
    let mut parent: String = pointer.to_owned();
    while lookup(value, parent.as_str()).is_none()
        invariant
            nearest_present(*value, pointer@) == nearest_present(*value, parent@),
        decreases parent@.len(),
    {
        assert(parent@.len() > 0);
        parent = pointer_parent(parent.as_str());
    }
    let keys: Option<Vec<String>> = match lookup(value, parent.as_str()) {
        Some(Json::Object(ms)) => Some(member_keys(ms)),
        _ => None,
    };
    Err(evidence_pointer_not_found(pointer, section, parent.as_str(), keys.as_ref()))
}

} // verus!
