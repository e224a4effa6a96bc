//! Passive search over recorded operations: request limits, filters, text
//! matches with excerpts, per-hit shrinking and the scan's continuation.
use crate::cursor::{activity_cursor, stale_cursor};
use crate::error::{ErrorCode, ToolError, coded_invalid_request};
use crate::limits::MAX_AGENT_RESPONSE_BYTES;
use crate::model::OperationPhase;
use crate::pattern::{Pattern, escaped, regex_compiles};
use crate::pointer::{pointer_ok, validate_pointer};
use crate::json::{Json, item_leaves, item_pointer, leaves, member_leaves, member_pointer, scalar_text};
use crate::pointer::escape_pointer_key;
use crate::text::{byte_len, byte_len_of, chars_of, push_char, render_u64, str_eq, string_of_range};
use vstd::prelude::*;

verus! {

broadcast use vstd::string::group_string_axioms;

/// Operations examined per search call, at most.
pub const SCAN_LIMIT: usize = 200;

/// Text matches kept per hit.
pub const MATCH_LIMIT: usize = 4;

/// The default page size: 20 hits.
pub fn default_limit() -> (r: usize)
    ensures
        r == 20,
{
    20
}

/// A search over a cell's recorded operations.
#[derive(Clone, Debug)]
pub struct ActivitySearchRequest {
    pub name: String,
    pub query: String,
    pub regex: bool,
    pub case_insensitive: bool,
    pub component: Option<String>,
    pub phase: Option<OperationPhase>,
    pub native_exit_code: Option<i64>,
    /// The operation kind, by its wire name.
    pub kind: Option<String>,
    pub principal_id: Option<String>,
    pub run_id: Option<String>,
    pub session_id: Option<String>,
    pub accepted_after_unix: Option<i64>,
    pub accepted_before_unix: Option<i64>,
    pub fields: Vec<String>,
    pub limit: usize,
    pub cursor: Option<String>,
}

/// What an activity search reads of one recorded operation.
#[derive(Clone, Debug)]
pub struct OperationRecord {
    pub id: String,
    pub phase: OperationPhase,
    /// The operation kind, by its wire name.
    pub kind: String,
    pub principal_id: String,
    pub experiment_id: String,
    pub session_id: String,
    pub accepted_at_unix: i64,
    /// Components the operation touched.
    pub components: Vec<String>,
    pub native_exit_code: Option<i64>,
}

// ---------------------------------------------------------------------------
// Request checks and the pattern
// ---------------------------------------------------------------------------

/// Compile-size limit of activity patterns: 1 MiB.
pub const ACTIVITY_PATTERN_SIZE_LIMIT: usize = 1048576;

/// What checking an activity search yields: limits, time range, fields, then the pattern's source.
pub open spec fn activity_check(r: ActivitySearchRequest) -> Result<Seq<char>, ErrorCode> {
    let source = if r.regex {
        r.query@
    } else {
        escaped(r.query@)
    };
    if byte_len(r.query@) > 4096 || r.fields@.len() > 16 || !(1 <= r.limit <= 50) {
        Err(ErrorCode::ActivitySearchLimits)
    } else if r.accepted_after_unix matches Some(start) && r.accepted_before_unix matches Some(end)
        && start >= end {
        Err(ErrorCode::ActivitySearchTimeRange)
    } else if exists|i: int| 0 <= i < r.fields@.len() && !pointer_ok(#[trigger] r.fields@[i]@) {
        Err(ErrorCode::InvalidJsonPointer)
    } else if !regex_compiles(source, r.case_insensitive, ACTIVITY_PATTERN_SIZE_LIMIT) {
        Err(ErrorCode::ActivitySearchRegexInvalid)
    } else {
        Ok(source)
    }
}

/// Checks an activity search's limits, time range and fields, and compiles its query.
pub fn activity_pattern(request: &ActivitySearchRequest) -> (r: Result<Pattern, ToolError>)
    ensures
        match activity_check(*request) {
            Ok(source) => r matches Ok(p) && p.source() == source && p.case_insensitive()
                == request.case_insensitive && p.size_limit() == ACTIVITY_PATTERN_SIZE_LIMIT,
            Err(code) => r matches Err(e) && e.is_coded(code),
        },
{
    if byte_len_of(request.query.as_str()) > 4096 || request.fields.len() > 16 || !(1
        <= request.limit && request.limit <= 50) {
        return Err(
            coded_invalid_request(
                ErrorCode::ActivitySearchLimits,
                "Use a query of at most 4096 bytes, at most 16 fields, and limit between 1 and 50",
            ),
        );
    }
    if let (Some(start), Some(end)) = (request.accepted_after_unix, request.accepted_before_unix) {
        if start >= end {
            return Err(
                coded_invalid_request(
                    ErrorCode::ActivitySearchTimeRange,
                    "accepted_after_unix must be less than accepted_before_unix",
                ),
            );
        }
    }
    let mut i: usize = 0;
    while i < request.fields.len()
        invariant
            i <= request.fields@.len(),
            forall|k: int| 0 <= k < i ==> pointer_ok(#[trigger] request.fields@[k]@),
            !(byte_len(request.query@) > 4096 || request.fields@.len() > 16 || !(1 <= request.limit
                <= 50)),
            !(request.accepted_after_unix matches Some(start) && request.accepted_before_unix matches Some(
                end,
            ) && start >= end),
        decreases request.fields@.len() - i,
    {
        let checked = validate_pointer(request.fields[i].as_str());
        if let Err(e) = checked {
            assert(!pointer_ok(request.fields@[i as int]@));
            return Err(e);
        }
        i = i + 1;
    }
    match Pattern::build(
        request.query.as_str(),
        request.regex,
        request.case_insensitive,
        ACTIVITY_PATTERN_SIZE_LIMIT,
    ) {
        Ok(p) => Ok(p),
        Err(message) => Err(
            coded_invalid_request(ErrorCode::ActivitySearchRegexInvalid, message.as_str()),
        ),
    }
}

// ---------------------------------------------------------------------------
// Filters
// ---------------------------------------------------------------------------

pub open spec fn views(v: Seq<String>) -> Seq<Seq<char>> {
    v.map_values(|s: String| s@)
}

/// Whether an operation passes every filter the request sets.
pub open spec fn filters_pass(r: ActivitySearchRequest, op: OperationRecord) -> bool {
    &&& r.component matches Some(c) ==> views(op.components@).contains(c@)
    &&& r.phase matches Some(p) ==> op.phase == p
    &&& r.native_exit_code matches Some(code) ==> op.native_exit_code == Some(code)
    &&& r.kind matches Some(k) ==> op.kind@ == k@
    &&& r.principal_id matches Some(p) ==> op.principal_id@ == p@
    &&& r.run_id matches Some(x) ==> op.experiment_id@ == x@
    &&& r.session_id matches Some(s) ==> op.session_id@ == s@
    &&& r.accepted_after_unix matches Some(t) ==> op.accepted_at_unix >= t
    &&& r.accepted_before_unix matches Some(t) ==> op.accepted_at_unix < t
}

fn contains_str(items: &Vec<String>, x: &str) -> (r: bool)
    ensures
        r == views(items@).contains(x@),
{
    let mut i: usize = 0;
    while i < items.len()
        invariant
            i <= items@.len(),
            forall|k: int| 0 <= k < i ==> items@[k]@ != x@,
        decreases items@.len() - i,
    {
        if str_eq(items[i].as_str(), x) {
            assert(views(items@)[i as int] == x@);
            return true;
        }
        i = i + 1;
    }
    assert forall|k: int| 0 <= k < views(items@).len() implies views(items@)[k] != x@ by {
        assert(views(items@)[k] == items@[k]@);
    }
    false
}

fn opt_eq(want: &Option<String>, have: &String) -> (r: bool)
    ensures
        r == (want matches Some(w) ==> have@ == w@),
{
    match want {
        Some(w) => str_eq(have.as_str(), w.as_str()),
        None => true,
    }
}

/// Whether a recorded operation passes the request's filters.
pub fn matches_filters(request: &ActivitySearchRequest, op: &OperationRecord) -> (r: bool)
    ensures
        r == filters_pass(*request, *op),
        request.session_id matches Some(s) && op.session_id@ != s@ ==> !r,
        request.run_id matches Some(x) && op.experiment_id@ != x@ ==> !r,
        request.principal_id matches Some(p) && op.principal_id@ != p@ ==> !r,
        request.kind matches Some(k) && op.kind@ != k@ ==> !r,
        request.phase matches Some(p) && op.phase != p ==> !r,
        request.native_exit_code matches Some(c) && op.native_exit_code != Some(c) ==> !r,
        request.accepted_after_unix matches Some(t) && op.accepted_at_unix < t ==> !r,
        request.accepted_before_unix matches Some(t) && op.accepted_at_unix >= t ==> !r,
        request.component matches Some(c) && (forall|i: int|
            0 <= i < op.components@.len() ==> #[trigger] op.components@[i]@ != c@) ==> !r,
{
    let component_ok = match &request.component {
        Some(c) => contains_str(&op.components, c.as_str()),
        None => true,
    };
    let phase_ok = match request.phase {
        Some(p) => op.phase == p,
        None => true,
    };
    let exit_ok = match request.native_exit_code {
        Some(code) => match op.native_exit_code {
            Some(actual) => actual == code,
            None => false,
        },
        None => true,
    };
    let after_ok = match request.accepted_after_unix {
        Some(t) => op.accepted_at_unix >= t,
        None => true,
    };
    let before_ok = match request.accepted_before_unix {
        Some(t) => op.accepted_at_unix < t,
        None => true,
    };
    component_ok && phase_ok && exit_ok && opt_eq(&request.kind, &op.kind) && opt_eq(
        &request.principal_id,
        &op.principal_id,
    ) && opt_eq(&request.run_id, &op.experiment_id) && opt_eq(&request.session_id, &op.session_id)
        && after_ok && before_ok
}

// ---------------------------------------------------------------------------
// Text matches
// ---------------------------------------------------------------------------

/// One text match: where, an excerpt, and the excerpt's character offset in a string.
#[derive(Clone, Debug)]
pub struct TextMatch {
    pub pointer: String,
    pub excerpt: String,
    pub offset: Option<usize>,
}

/// Bytes of one character in UTF-8.
pub open spec fn char_utf8_len(c: char) -> nat {
    if (c as u32) <= 0x7f {
        1
    } else if (c as u32) <= 0x7ff {
        2
    } else if (c as u32) <= 0xffff {
        3
    } else {
        4
    }
}

/// Characters that fit entirely in the first `b` bytes of the text.
pub open spec fn chars_before(s: Seq<char>, b: nat) -> nat
    decreases s.len(),
{
    if s.len() == 0 || char_utf8_len(s[0]) > b {
        0
    } else {
        1 + chars_before(s.drop_first(), (b - char_utf8_len(s[0])) as nat)
    }
}

proof fn lemma_chars_before_bound(s: Seq<char>, b: nat)
    ensures
        chars_before(s, b) <= s.len(),
    decreases s.len(),
{
    if s.len() > 0 && char_utf8_len(s[0]) <= b {
        lemma_chars_before_bound(s.drop_first(), (b - char_utf8_len(s[0])) as nat);
    }
}

fn utf8_len(c: char) -> (r: usize)
    ensures
        r == char_utf8_len(c),
{
    let v = c as u32;
    if v <= 0x7f {
        1
    } else if v <= 0x7ff {
        2
    } else if v <= 0xffff {
        3
    } else {
        4
    }
}

/// Counts the characters that fit entirely in the first `b` bytes.
fn count_chars_before(s: &Vec<char>, b: usize) -> (r: usize)
    ensures
        r == chars_before(s@, b as nat),
{
    let mut i: usize = 0;
    let mut left: usize = b;
    assert(s@.skip(0) =~= s@);
    while i < s.len() && utf8_len(s[i]) <= left
        invariant
            i <= s@.len(),
            left <= b,
            chars_before(s@, b as nat) == i + chars_before(s@.skip(i as int), left as nat),
        decreases s@.len() - i,
    {
        let w = utf8_len(s[i]);
        assert(s@.skip(i as int).drop_first() =~= s@.skip(i + 1));
        left = left - w;
        i = i + 1;
    }
    proof {
        if i < s@.len() {
            assert(s@.skip(i as int)[0] == s@[i as int]);
        } else {
            assert(s@.skip(i as int).len() == 0);
        }
    }
    i
}

/// Start of an excerpt: 60 characters before the match, or the text's start.
pub open spec fn excerpt_start(text: Seq<char>, match_byte: nat) -> nat {
    let c = chars_before(text, match_byte);
    if c > 60 {
        (c - 60) as nat
    } else {
        0
    }
}

/// The excerpt: up to 180 characters from its start.
pub open spec fn excerpt_of(text: Seq<char>, start: nat) -> Seq<char> {
    let end: int = if start + 180 < text.len() {
        (start + 180) as int
    } else {
        text.len() as int
    };
    text.subrange(start as int, end)
}

/// A text match as plain values: its pointer, excerpt and character offset.
pub open spec fn match_view(m: TextMatch) -> (Seq<char>, Seq<char>, Option<nat>) {
    (m.pointer@, m.excerpt@, match m.offset {
        Some(o) => Some(o as nat),
        None => None,
    })
}

pub open spec fn match_views(ms: Seq<TextMatch>) -> Seq<(Seq<char>, Seq<char>, Option<nat>)> {
    ms.map_values(|m: TextMatch| match_view(m))
}

/// The match a leaf (pointer, text, whether a string) yields: its pointer, an
/// excerpt, and for a string the excerpt's start.
pub open spec fn leaf_match(l: (Seq<char>, Seq<char>, bool), p: Pattern) -> Option<
    (Seq<char>, Seq<char>, Option<nat>),
> {
    match p.find_start(l.1) {
        None => None,
        Some(b) => {
            let start = excerpt_start(l.1, b);
            Some(
                (l.0, excerpt_of(l.1, start), if l.2 {
                    Some(start)
                } else {
                    None
                }),
            )
        },
    }
}

/// The matches of a run of leaves, in order.
pub open spec fn leaf_matches(ls: Seq<(Seq<char>, Seq<char>, bool)>, p: Pattern) -> Seq<
    (Seq<char>, Seq<char>, Option<nat>),
>
    decreases ls.len(),
{
    if ls.len() == 0 {
        Seq::empty()
    } else {
        leaf_matches(ls.drop_last(), p) + match leaf_match(ls.last(), p) {
            Some(m) => seq![m],
            None => Seq::empty(),
        }
    }
}

/// Matches already held, extended by more until one more than the limit is held.
pub open spec fn capped<T>(found: Seq<T>, more: Seq<T>) -> Seq<T> {
    if found.len() > MATCH_LIMIT {
        found
    } else if found.len() + more.len() <= MATCH_LIMIT + 1 {
        found + more
    } else {
        found + more.take(MATCH_LIMIT + 1 - found.len())
    }
}

proof fn lemma_leaf_matches_concat(
    a: Seq<(Seq<char>, Seq<char>, bool)>,
    b: Seq<(Seq<char>, Seq<char>, bool)>,
    p: Pattern,
)
    ensures
        leaf_matches(a + b, p) == leaf_matches(a, p) + leaf_matches(b, p),
    decreases b.len(),
{
    if b.len() == 0 {
        assert(a + b =~= a);
        assert(leaf_matches(a, p) + leaf_matches(b, p) =~= leaf_matches(a, p));
    } else {
        assert((a + b).drop_last() =~= a + b.drop_last());
        assert((a + b).last() == b.last());
        lemma_leaf_matches_concat(a, b.drop_last(), p);
        assert(leaf_matches(a + b, p) =~= leaf_matches(a, p) + leaf_matches(b, p));
    }
}

proof fn lemma_capped_compose<T>(f: Seq<T>, a: Seq<T>, b: Seq<T>)
    ensures
        capped(capped(f, a), b) == capped(f, a + b),
{
    let l = MATCH_LIMIT + 1;
    if f.len() > MATCH_LIMIT {
    } else if f.len() + a.len() <= l {
        assert(capped(f, a) == f + a);
        if f.len() + a.len() == l {
            if b.len() == 0 {
                assert(a + b =~= a);
            } else {
                assert((a + b).take(l - f.len()) =~= a);
            }
        } else if f.len() + a.len() + b.len() <= l {
            assert(f + a + b =~= f + (a + b));
        } else {
            assert(f + a + b.take(l - f.len() - a.len()) =~= f + (a + b).take(l - f.len()));
        }
    } else {
        assert((a + b).take(l - f.len()) =~= a.take(l - f.len()));
    }
}

proof fn lemma_capped_extend<T>(f: Seq<T>, a: Seq<T>, b: Seq<T>)
    requires
        capped(f, a).len() > MATCH_LIMIT,
    ensures
        capped(f, a + b) == capped(f, a),
{
    lemma_capped_compose(f, a, b);
}

proof fn lemma_items_held(start: Seq<(Seq<char>, Seq<char>, Option<nat>)>, v: Json, p: Seq<char>, pat: Pattern, i: int, m: int)
    requires
        v is Array,
        0 <= i <= m <= v->Array_0@.len(),
        capped(start, leaf_matches(item_leaves(v, p, i), pat)).len() > MATCH_LIMIT,
    ensures
        capped(start, leaf_matches(item_leaves(v, p, m), pat)) == capped(
            start,
            leaf_matches(item_leaves(v, p, i), pat),
        ),
    decreases m - i,
{
    if m > i {
        lemma_items_held(start, v, p, pat, i, m - 1);
        let items = v->Array_0;
        let a = item_leaves(v, p, m - 1);
        let b = leaves(items@[m - 1], item_pointer(p, m - 1));
        lemma_leaf_matches_concat(a, b, pat);
        lemma_capped_extend(start, leaf_matches(a, pat), leaf_matches(b, pat));
    }
}

proof fn lemma_members_held(start: Seq<(Seq<char>, Seq<char>, Option<nat>)>, v: Json, p: Seq<char>, pat: Pattern, i: int, m: int)
    requires
        v is Object,
        0 <= i <= m <= v->Object_0@.len(),
        capped(start, leaf_matches(member_leaves(v, p, i), pat)).len() > MATCH_LIMIT,
    ensures
        capped(start, leaf_matches(member_leaves(v, p, m), pat)) == capped(
            start,
            leaf_matches(member_leaves(v, p, i), pat),
        ),
    decreases m - i,
{
    if m > i {
        lemma_members_held(start, v, p, pat, i, m - 1);
        let ms = v->Object_0;
        let a = member_leaves(v, p, m - 1);
        let b = leaves(ms@[m - 1].value, member_pointer(p, ms@[m - 1].key@));
        lemma_leaf_matches_concat(a, b, pat);
        lemma_capped_extend(start, leaf_matches(a, pat), leaf_matches(b, pat));
    }
}

/// The text match of one leaf, if the pattern finds one in its text.
fn match_leaf(pointer: &String, text: &String, is_string: bool, pattern: &Pattern) -> (r: Option<
    TextMatch,
>)
    ensures
        match r {
            Some(m) => leaf_match((pointer@, text@, is_string), *pattern) == Some(match_view(m)),
            None => leaf_match((pointer@, text@, is_string), *pattern) is None,
        },
{
    match pattern.find_start_exec(text.as_str()) {
        None => None,
        Some(b) => {
            let chars = chars_of(text.as_str());
            let c = count_chars_before(&chars, b);
            proof {
                lemma_chars_before_bound(chars@, b as nat);
            }
            let start: usize = if c > 60 {
                c - 60
            } else {
                0
            };
            let end: usize = if chars.len() - start > 180 {
                start + 180
            } else {
                chars.len()
            };
            let excerpt = string_of_range(&chars, start, end);
            let m = TextMatch {
                pointer: pointer.clone(),
                excerpt,
                offset: if is_string {
                    Some(start)
                } else {
                    None
                },
            };
            assert(start == excerpt_start(text@, b as nat));
            assert(m.excerpt@ == excerpt_of(text@, start as nat));
            Some(m)
        },
    }
}

/// The JSON text of a scalar that is not a string.
fn scalar_text_exec(v: &Json) -> (r: String)
    requires
        !(v is Array || v is Object || v is Str),
    ensures
        r@ == scalar_text(*v),
{
    match v {
        Json::Null => {
            proof {
                reveal_strlit("null");
            }
            "null".to_owned()
        },
        Json::Bool(b) => if *b {
            proof {
                reveal_strlit("true");
            }
            "true".to_owned()
        } else {
            proof {
                reveal_strlit("false");
            }
            "false".to_owned()
        },
        Json::Number(n) => n.clone(),
        _ => String::new(),
    }
}

proof fn lemma_push_match(found: Seq<TextMatch>, m: TextMatch)
    ensures
        match_views(found.push(m)) == match_views(found).push(match_view(m)),
{
    assert(match_views(found.push(m)) =~= match_views(found).push(match_view(m)));
}

proof fn lemma_single_leaf(l: (Seq<char>, Seq<char>, bool), p: Pattern)
    ensures
        leaf_matches(seq![l], p) == match leaf_match(l, p) {
            Some(m) => seq![m],
            None => Seq::empty(),
        },
{
    assert(seq![l].drop_last() =~= Seq::<(Seq<char>, Seq<char>, bool)>::empty());
    assert(seq![l].last() == l);
    assert(leaf_matches(Seq::<(Seq<char>, Seq<char>, bool)>::empty(), p) =~= Seq::empty());
    assert(leaf_matches(seq![l], p) =~= match leaf_match(l, p) {
        Some(m) => seq![m],
        None => Seq::empty(),
    });
}

/// Adds the text matches among the scalars of `value`, which stands at
/// `pointer`, in document order until more than four are held; each carries
/// up to 180 characters starting 60 characters before the match.
pub fn text_matches(value: &Json, pointer: &String, pattern: &Pattern, found: &mut Vec<TextMatch>)
    ensures
        match_views(final(found)@) == capped(
            match_views(old(found)@),
            leaf_matches(leaves(*value, pointer@), *pattern),
        ),
    decreases value,
{
    if found.len() > MATCH_LIMIT {
        return;
    }
    let ghost start = match_views(found@);
    assert(leaf_matches(Seq::<(Seq<char>, Seq<char>, bool)>::empty(), *pattern) =~= Seq::empty());
    assert(start + Seq::<(Seq<char>, Seq<char>, Option<nat>)>::empty() =~= start);
    match value {
        Json::Object(ms) => {
            let mut i: usize = 0;
            while i < ms.len() && found.len() <= MATCH_LIMIT
                invariant
                    i <= ms@.len(),
                    *value == Json::Object(*ms),
                    start.len() <= MATCH_LIMIT,
                    match_views(found@) == capped(
                        start,
                        leaf_matches(member_leaves(*value, pointer@, i as int), *pattern),
                    ),
                decreases ms@.len() - i,
            {
                let escaped = escape_pointer_key(ms[i].key.as_str());
                let mut child = pointer.clone();
                push_char(&mut child, '/');
                child.append(escaped.as_str());
                assert(child@ == member_pointer(pointer@, ms@[i as int].key@));
                let ghost before = match_views(found@);
                text_matches(&ms[i].value, &child, pattern, found);
                proof {
                    let a = member_leaves(*value, pointer@, i as int);
                    let b = leaves(ms@[i as int].value, child@);
                    assert(member_leaves(*value, pointer@, i + 1) == a + b);
                    lemma_leaf_matches_concat(a, b, *pattern);
                    lemma_capped_compose(start, leaf_matches(a, *pattern), leaf_matches(b, *pattern));
                }
                i = i + 1;
            }
            proof {
                if i < ms@.len() {
                    lemma_members_held(start, *value, pointer@, *pattern, i as int, ms@.len() as int);
                }
            }
        },
        Json::Array(items) => {
            let mut i: usize = 0;
            while i < items.len() && found.len() <= MATCH_LIMIT
                invariant
                    i <= items@.len(),
                    *value == Json::Array(*items),
                    start.len() <= MATCH_LIMIT,
                    match_views(found@) == capped(
                        start,
                        leaf_matches(item_leaves(*value, pointer@, i as int), *pattern),
                    ),
                decreases items@.len() - i,
            {
                let index = render_u64(i as u64);
                let mut child = pointer.clone();
                push_char(&mut child, '/');
                child.append(index.as_str());
                assert(child@ == item_pointer(pointer@, i as int));
                proof {
                    assert(decreases_to!(*value => *items));
                    assert(decreases_to!(*items => items@));
                    assert(decreases_to!(items@ => items@[i as int]));
                    assert(decreases_to!(*value => items@[i as int]));
                }
                text_matches(&items[i], &child, pattern, found);
                proof {
                    let a = item_leaves(*value, pointer@, i as int);
                    let b = leaves(items@[i as int], child@);
                    assert(item_leaves(*value, pointer@, i + 1) == a + b);
                    lemma_leaf_matches_concat(a, b, *pattern);
                    lemma_capped_compose(start, leaf_matches(a, *pattern), leaf_matches(b, *pattern));
                }
                i = i + 1;
            }
            proof {
                if i < items@.len() {
                    lemma_items_held(start, *value, pointer@, *pattern, i as int, items@.len() as int);
                }
            }
        },
        Json::Str(s) => {
            proof {
                lemma_single_leaf((pointer@, s@, true), *pattern);
            }
            if let Some(m) = match_leaf(pointer, s, true, pattern) {
                let ghost old_found = found@;
                found.push(m);
                proof {
                    lemma_push_match(old_found, m);
                }
            }
        },
        _ => {
            let text = scalar_text_exec(value);
            proof {
                lemma_single_leaf((pointer@, text@, false), *pattern);
            }
            if let Some(m) = match_leaf(pointer, &text, false, pattern) {
                let ghost old_found = found@;
                found.push(m);
                proof {
                    lemma_push_match(old_found, m);
                }
            }
        },
    }
}

// ---------------------------------------------------------------------------
// Fitting one hit into half the budget
// ---------------------------------------------------------------------------

/// What a hit still carries: which selected field values are kept, how many
/// text matches, and whether matches were truncated.
#[derive(Clone, Debug)]
pub struct HitShape {
    pub field_values: Vec<bool>,
    pub matches: usize,
    pub matches_truncated: bool,
}

/// The last field index whose value is still kept.
pub open spec fn last_kept(v: Seq<bool>) -> Option<int> {
    if exists|i: int| 0 <= i < v.len() && v[i] {
        Some(choose|i: int| 0 <= i < v.len() && v[i] && forall|j: int| i < j < v.len() ==> !v[j])
    } else {
        None
    }
}

/// One shrinking step: drop the last kept field value, else the last match.
pub open spec fn shrink_step(fields: Seq<bool>, matches: nat, truncated: bool) -> Option<(Seq<bool>, nat, bool)> {
    match last_kept(fields) {
        Some(i) => Some((fields.update(i, false), matches, truncated)),
        None => if matches > 0 {
            Some((fields, (matches - 1) as nat, true))
        } else {
            None
        },
    }
}

fn find_last_kept(v: &Vec<bool>) -> (r: Option<usize>)
    ensures
        match r {
            Some(i) => i < v@.len() && v@[i as int] && forall|j: int| i < j < v@.len() ==> !v@[j],
            None => forall|j: int| 0 <= j < v@.len() ==> !v@[j],
        },
{
    let mut i: usize = v.len();
    while i > 0
        invariant
            i <= v@.len(),
            forall|j: int| i <= j < v@.len() ==> !v@[j],
        decreases i,
    {
        if v[i - 1] {
            return Some(i - 1);
        }
        i = i - 1;
    }
    None
}

/// Whether a hit's response takes at most half the budget.
pub open spec fn fits_half<F: Fn(&HitShape) -> usize>(size_of: F, h: HitShape) -> bool {
    exists|s: usize| #[trigger] size_of.ensures((&h,), s) && s <= MAX_AGENT_RESPONSE_BYTES / 2
}

/// What a hit carries, as plain values.
pub open spec fn hit_view(h: HitShape) -> (Seq<bool>, nat, bool) {
    (h.field_values@, h.matches as nat, h.matches_truncated)
}

/// The hit after `k` shrinking steps, while steps remain.
pub open spec fn shrunk(v: (Seq<bool>, nat, bool), k: nat) -> Option<(Seq<bool>, nat, bool)>
    decreases k,
{
    if k == 0 {
        Some(v)
    } else {
        match shrunk(v, (k - 1) as nat) {
            Some(x) => shrink_step(x.0, x.1, x.2),
            None => None,
        }
    }
}

/// A hit with this view was measured at more than half the budget.
pub open spec fn measured_too_large<F: Fn(&HitShape) -> usize>(size_of: F, x: (Seq<bool>, nat, bool)) -> bool {
    exists|h: HitShape, s: usize|
        hit_view(h) == x && #[trigger] size_of.ensures((&h,), s) && s > MAX_AGENT_RESPONSE_BYTES / 2
}

/// Every hit before the `k`-th step was measured too large.
pub open spec fn shrunk_too_large<F: Fn(&HitShape) -> usize>(size_of: F, v: (Seq<bool>, nat, bool), k: nat) -> bool {
    forall|j: nat|
        j < k ==> (#[trigger] shrunk(v, j) matches Some(x) && measured_too_large(size_of, x))
}

proof fn lemma_last_kept_is(v: Seq<bool>, i: int)
    requires
        0 <= i < v.len(),
        v[i],
        forall|j: int| i < j < v.len() ==> !v[j],
    ensures
        last_kept(v) == Some(i),
{
    let c = choose|c: int| 0 <= c < v.len() && v[c] && forall|j: int| c < j < v.len() ==> !v[j];
    assert(0 <= c < v.len() && v[c] && forall|j: int| c < j < v.len() ==> !v[j]);
    if c < i {
        assert(!v[i]);
    } else if c > i {
        assert(!v[c]);
    }
}

/// Drops field values from the last one, then matches from the last one,
/// until `size_of(shape)` fits half the budget; a hit with nothing left to
/// drop that still does not fit is refused.
pub fn shrink_hit<F: Fn(&HitShape) -> usize>(shape: HitShape, size_of: F) -> (r: Result<HitShape, ToolError>)
    requires
        forall|h: &HitShape| size_of.requires((h,)),
    ensures
        match r {
            Ok(h) => exists|k: nat|
                #[trigger] shrunk(hit_view(shape), k) == Some(hit_view(h)) && shrunk_too_large(
                    size_of,
                    hit_view(shape),
                    k,
                ) && fits_half(size_of, h),
            Err(e) => e.is_coded(ErrorCode::ActivitySearchItemTooLarge) && exists|k: nat|
                #[trigger] shrunk(hit_view(shape), k) matches Some(x) && shrink_step(x.0, x.1, x.2) is None
                    && measured_too_large(size_of, x) && shrunk_too_large(size_of, hit_view(shape), k),
        },
        r matches Ok(h) ==> h.field_values@.len() == shape.field_values@.len() && h.matches <= shape.matches
            && (shape.matches_truncated ==> h.matches_truncated)
            && (h.matches < shape.matches ==> h.matches_truncated)
            && (h.matches < shape.matches ==> forall|j: int| 0 <= j < h.field_values@.len() ==> !h.field_values@[j])
            && forall|j: int| 0 <= j < h.field_values@.len() && h.field_values@[j] ==> shape.field_values@[j],
{
    let ghost orig = shape;
    let mut h = shape;
    let ghost mut k: nat = 0;
    loop
        invariant
            orig == shape,
            forall|x: &HitShape| size_of.requires((x,)),
            shrunk(hit_view(orig), k) == Some(hit_view(h)),
            shrunk_too_large(size_of, hit_view(orig), k),
            h.field_values@.len() == orig.field_values@.len(),
            h.matches <= orig.matches,
            orig.matches_truncated ==> h.matches_truncated,
            h.matches < orig.matches ==> h.matches_truncated,
            h.matches < orig.matches ==> forall|j: int| 0 <= j < h.field_values@.len() ==> !h.field_values@[j],
            forall|j: int| 0 <= j < h.field_values@.len() && h.field_values@[j] ==> orig.field_values@[j],
        decreases h.field_values@.filter(|b: bool| b).len() + h.matches,
    {
        let size = size_of(&h);
        if size <= MAX_AGENT_RESPONSE_BYTES / 2 {
            assert(size_of.ensures((&h,), size));
            assert(fits_half(size_of, h));
            return Ok(h);
        }
        let ghost x = hit_view(h);
        assert(measured_too_large(size_of, x)) by {
            assert(size_of.ensures((&h,), size));
        }
        proof {
            assert forall|j: nat| j < k + 1 implies (#[trigger] shrunk(hit_view(orig), j) matches Some(y)
                && measured_too_large(size_of, y)) by {
                if j == k {
                    assert(shrunk(hit_view(orig), j) == Some(x));
                }
            }
        }
        match find_last_kept(&h.field_values) {
            Some(i) => {
                let ghost before = h.field_values@;
                proof {
                    lemma_last_kept_is(before, i as int);
                }
                h.field_values.set(i, false);
                proof {
                    lemma_filter_true_drop(before, i as int);
                    assert(hit_view(h) == (before.update(i as int, false), x.1, x.2));
                    assert(shrunk(hit_view(orig), k + 1) == shrink_step(x.0, x.1, x.2));
                    k = k + 1;
                }
            },
            None => {
                proof {
                    if last_kept(x.0) is Some {
                        let c = choose|c: int| 0 <= c < x.0.len() && x.0[c];
                        assert(x.0[c]);
                    }
                    assert(last_kept(x.0) is None);
                    assert(shrunk(hit_view(orig), k + 1) == shrink_step(x.0, x.1, x.2));
                }
                if h.matches > 0 {
                    h.matches = h.matches - 1;
                    h.matches_truncated = true;
                    proof {
                        k = k + 1;
                    }
                } else {
                    return Err(
                        coded_invalid_request(
                            ErrorCode::ActivitySearchItemTooLarge,
                            "Match metadata exceeds the response budget; request fewer fields",
                        ),
                    );
                }
            },
        }
    }
}

proof fn lemma_filter_true_drop(v: Seq<bool>, i: int)
    requires
        0 <= i < v.len(),
        v[i],
    ensures
        v.update(i, false).filter(|b: bool| b).len() < v.filter(|b: bool| b).len(),
    decreases v.len(),
{
    reveal(Seq::filter);
    let u = v.update(i, false);
    if i == v.len() - 1 {
        assert(u.drop_last() =~= v.drop_last());
    } else {
        assert(u.drop_last() =~= v.drop_last().update(i, false));
        lemma_filter_true_drop(v.drop_last(), i);
    }
}

/// A selected field whose value takes more than 2048 bytes is omitted.
pub fn field_omitted(value_bytes: usize) -> (r: bool)
    ensures
        r == (value_bytes > 2048),
{
    value_bytes > 2048
}

// ---------------------------------------------------------------------------
// The scan
// ---------------------------------------------------------------------------

/// Where a scan stands after each examined operation.
#[derive(Clone, Debug)]
pub struct ScanState {
    /// The last operation examined; the cursor resumes after it.
    pub boundary: String,
    pub scanned: usize,
    pub items: usize,
    pub next_cursor: Option<String>,
}

/// What examining one operation did.
#[derive(Clone, Copy, Debug, PartialEq, Eq, Structural)]
pub enum Examined {
    /// The operation is no hit.
    Miss,
    /// A hit that fits the response.
    Kept,
    /// A hit that would overflow the response; the scan stops before it.
    Overflow,
}

/// The scan state before the first operation.
pub fn scan_start(boundary: String) -> (s: ScanState)
    ensures
        s.boundary == boundary,
        s.scanned == 0,
        s.items == 0,
        s.next_cursor is None,
{
    ScanState { boundary, scanned: 0, items: 0, next_cursor: None }
}

/// Advances the scan past one operation. `more` says whether another operation
/// follows it. Returns whether the scan stops.
pub fn scan_step(
    state: &mut ScanState,
    fingerprint: &str,
    operation_id: &str,
    examined: Examined,
    more: bool,
    limit: usize,
) -> (stop: bool)
    requires
        old(state).scanned < SCAN_LIMIT,
        old(state).items < limit,
    ensures
        examined == Examined::Overflow ==> stop && final(state).items == old(state).items
            && final(state).scanned == old(state).scanned && final(state).boundary == old(state).boundary
            && (final(state).next_cursor matches Some(c) && c@ == fingerprint@ + seq![':']
            + old(state).boundary@),
        examined != Examined::Overflow ==> {
            &&& final(state).boundary@ == operation_id@
            &&& final(state).scanned == old(state).scanned + 1
            &&& final(state).items == old(state).items + (if examined == Examined::Kept { 1int } else { 0 })
            &&& (more ==> (final(state).next_cursor matches Some(c) && c@ == fingerprint@ + seq![':']
                + operation_id@))
            &&& (!more ==> final(state).next_cursor is None)
            &&& stop == (final(state).items >= limit || final(state).scanned >= SCAN_LIMIT)
        },
{
    if examined == Examined::Overflow {
        state.next_cursor = Some(activity_cursor(fingerprint, state.boundary.as_str()));
        return true;
    }
    if examined == Examined::Kept {
        state.items = state.items + 1;
    }
    state.boundary = operation_id.to_owned();
    state.scanned = state.scanned + 1;
    state.next_cursor = if more {
        Some(activity_cursor(fingerprint, operation_id))
    } else {
        None
    };
    state.items >= limit || state.scanned >= SCAN_LIMIT
}

/// A search is answered only if the history's observation digest did not
/// change while it ran; otherwise its cursor is stale.
pub fn check_activity_snapshot(before: &str, after: &str) -> (r: Result<(), ToolError>)
    ensures
        r is Ok <==> before@ == after@,
        r matches Err(e) ==> e.is_coded(ErrorCode::ActivitySearchCursorInvalid),
{
    if str_eq(before, after) {
        Ok(())
    } else {
        Err(stale_cursor())
    }
}

/// A scan state as plain values.
pub struct ScanView {
    pub boundary: Seq<char>,
    pub scanned: nat,
    pub items: nat,
    pub next_cursor: Option<Seq<char>>,
}

pub open spec fn scan_view(s: ScanState) -> ScanView {
    ScanView {
        boundary: s.boundary@,
        scanned: s.scanned as nat,
        items: s.items as nat,
        next_cursor: match s.next_cursor {
            Some(c) => Some(c@),
            None => None,
        },
    }
}

/// What examining one operation does to a scan, and whether the scan stops.
pub open spec fn scan_step_spec(
    s: ScanView,
    fingerprint: Seq<char>,
    operation_id: Seq<char>,
    examined: Examined,
    more: bool,
    limit: nat,
) -> (ScanView, bool) {
    if examined == Examined::Overflow {
        (ScanView { next_cursor: Some(fingerprint + seq![':'] + s.boundary), ..s }, true)
    } else {
        let next = ScanView {
            boundary: operation_id,
            scanned: s.scanned + 1,
            items: s.items + if examined == Examined::Kept {
                1nat
            } else {
                0nat
            },
            next_cursor: if more {
                Some(fingerprint + seq![':'] + operation_id)
            } else {
                None
            },
        };
        (next, next.items >= limit || next.scanned >= SCAN_LIMIT)
    }
}

/// A scan over one batch of operations `ids`, in history order, each examined
/// as `examined` says; `more_after` says whether operations follow the batch.
/// Gives the final state, whether the scan stopped, and how many operations of
/// the batch it took in.
pub open spec fn scan_batch_run(
    s: ScanView,
    fingerprint: Seq<char>,
    ids: Seq<Seq<char>>,
    examined: Seq<Examined>,
    more_after: bool,
    limit: nat,
) -> (ScanView, bool, nat)
    decreases ids.len(),
{
    if ids.len() == 0 {
        (s, false, 0)
    } else {
        let (next, stop) = scan_step_spec(s, fingerprint, ids[0], examined[0], ids.len() > 1 || more_after, limit);
        if stop {
            (next, true, if examined[0] == Examined::Overflow { 0nat } else { 1nat })
        } else {
            let (last, stopped, taken) = scan_batch_run(
                next,
                fingerprint,
                ids.drop_first(),
                examined.drop_first(),
                more_after,
                limit,
            );
            (last, stopped, taken + 1)
        }
    }
}

/// The hits kept on the page among the first `j` operations of a batch.
pub open spec fn hits_before(examined: Seq<Examined>, j: int) -> Seq<usize>
    decreases j,
{
    if j <= 0 {
        Seq::empty()
    } else {
        let before = hits_before(examined, j - 1);
        if examined[j - 1] == Examined::Kept {
            before.push((j - 1) as usize)
        } else {
            before
        }
    }
}

/// How operation `j` of a batch was examined, as measured: a miss is no hit; a
/// kept or overflowing hit was measured on the page holding the batch's hits
/// kept so far and it, leaving at least 64 bytes of the budget or not.
pub open spec fn scanned_as<H: Fn(usize) -> bool, S: Fn(&Vec<usize>) -> usize>(
    is_hit: H,
    size_with: S,
    examined: Seq<Examined>,
    j: int,
) -> bool {
    match examined[j] {
        Examined::Miss => is_hit.ensures((j as usize,), false),
        Examined::Kept => is_hit.ensures((j as usize,), true) && exists|v: Vec<usize>, s: usize|
            v@ == hits_before(examined, j).push(j as usize) && #[trigger] size_with.ensures((&v,), s) && s + 64
                <= MAX_AGENT_RESPONSE_BYTES,
        Examined::Overflow => is_hit.ensures((j as usize,), true) && exists|v: Vec<usize>, s: usize|
            v@ == hits_before(examined, j).push(j as usize) && #[trigger] size_with.ensures((&v,), s) && s + 64
                > MAX_AGENT_RESPONSE_BYTES,
    }
}

pub open spec fn operation_ids(ids: Seq<String>) -> Seq<Seq<char>> {
    ids.map_values(|s: String| s@)
}

pub open spec fn scan_shifted(r: (ScanView, bool, nat), j: nat) -> (ScanView, bool, nat) {
    (r.0, r.1, r.2 + j)
}

proof fn lemma_hits_before_prefix(a: Seq<Examined>, b: Seq<Examined>, j: int)
    requires
        0 <= j <= a.len(),
        j <= b.len(),
        forall|k: int| 0 <= k < j ==> a[k] == b[k],
    ensures
        hits_before(a, j) == hits_before(b, j),
    decreases j,
{
    if j > 0 {
        lemma_hits_before_prefix(a, b, j - 1);
    }
}

/// Scans one batch of recorded operations, in history order, into the page:
/// each operation is tested for a hit, a hit is kept while the page holding it
/// leaves 64 bytes of the budget, and the scan stops at `limit` hits or 200
/// operations. `is_hit(j)` says whether operation `j` is a hit; `size_with(kept)`
/// is the wire size of the page with the batch's kept hits. Returns whether the
/// scan stopped and the batch's kept hits; the scan is `scan_batch_run` over
/// what was examined.
pub fn scan_batch<H: Fn(usize) -> bool, S: Fn(&Vec<usize>) -> usize>(
    state: &mut ScanState,
    fingerprint: &str,
    ids: &Vec<String>,
    more_after: bool,
    is_hit: H,
    size_with: S,
    limit: usize,
) -> (r: (bool, Vec<usize>))
    requires
        old(state).scanned < SCAN_LIMIT,
        old(state).items < limit,
        forall|j: usize| is_hit.requires((j,)),
        forall|v: &Vec<usize>| size_with.requires((v,)),
    ensures
        exists|examined: Seq<Examined>, m: int|
            #![trigger scan_batch_run(scan_view(*old(state)), fingerprint@, operation_ids(ids@), examined, more_after, limit as nat), hits_before(examined, m)]
            {
                &&& examined.len() == ids@.len()
                &&& 0 <= m <= ids@.len()
                &&& forall|k: int| 0 <= k < m ==> #[trigger] scanned_as(is_hit, size_with, examined, k)
                &&& scan_batch_run(scan_view(*old(state)), fingerprint@, operation_ids(ids@), examined, more_after, limit as nat)
                    == (scan_view(*final(state)), r.0, (m - (if r.0 && examined[m - 1] == Examined::Overflow { 1int } else { 0 })) as nat)
                &&& r.1@ == hits_before(examined, m)
            },
{
    let ghost start = scan_view(*state);
    let ghost fp = fingerprint@;
    let ghost ids_v = operation_ids(ids@);
    let mut kept: Vec<usize> = Vec::new();
    let ghost mut ex: Seq<Examined> = Seq::empty();
    let n = ids.len();
    let mut j: usize = 0;
    proof {
        assert forall|rest: Seq<Examined>| rest.len() == n - 0 implies #[trigger] scan_batch_run(
            start,
            fp,
            ids_v,
            ex + rest,
            more_after,
            limit as nat,
        ) == scan_shifted(scan_batch_run(scan_view(*state), fp, ids_v.skip(0), rest, more_after, limit as nat), 0) by {
            assert(ex + rest =~= rest);
            assert(ids_v.skip(0) =~= ids_v);
        }
    }
    while j < n
        invariant
            n == ids@.len(),
            ids_v == operation_ids(ids@),
            fp == fingerprint@,
            start == scan_view(*old(state)),
            ids_v.len() == n,
            j <= n,
            ex.len() == j,
            kept@ == hits_before(ex, j as int),
            state.scanned < SCAN_LIMIT,
            state.items < limit,
            forall|k: int| 0 <= k < j ==> #[trigger] scanned_as(is_hit, size_with, ex, k),
            forall|j2: usize| is_hit.requires((j2,)),
            forall|v: &Vec<usize>| size_with.requires((v,)),
            forall|rest: Seq<Examined>|
                rest.len() == n - j ==> #[trigger] scan_batch_run(start, fp, ids_v, ex + rest, more_after, limit as nat)
                    == scan_shifted(
                    scan_batch_run(scan_view(*state), fp, ids_v.skip(j as int), rest, more_after, limit as nat),
                    j as nat,
                ),
        decreases n - j,
    {
        let ghost before = scan_view(*state);
        let ghost ex_before = ex;
        let hit = is_hit(j);
        let e = if !hit {
            Examined::Miss
        } else {
            kept.push(j);
            let size = size_with(&kept);
            if size > MAX_AGENT_RESPONSE_BYTES - 64 {
                kept.pop();
                Examined::Overflow
            } else {
                Examined::Kept
            }
        };
        proof {
            ex = ex.push(e);
            lemma_hits_before_prefix(ex_before, ex, j as int);
            assert(scanned_as(is_hit, size_with, ex, j as int));
            assert forall|k: int| 0 <= k < j + 1 implies #[trigger] scanned_as(is_hit, size_with, ex, k) by {
                if k < j {
                    lemma_hits_before_prefix(ex_before, ex, k);
                    assert(scanned_as(is_hit, size_with, ex_before, k));
                }
            }
        }
        let more = j + 1 < n || more_after;
        let stop = scan_step(state, fingerprint, ids[j].as_str(), e, more, limit);
        proof {
            assert forall|rest2: Seq<Examined>| rest2.len() == n - (j + 1) implies #[trigger] scan_batch_run(
                start,
                fp,
                ids_v,
                ex + rest2,
                more_after,
                limit as nat,
            ) == (if stop {
                (scan_view(*state), true, if e == Examined::Overflow { j as nat } else { (j + 1) as nat })
            } else {
                scan_shifted(
                    scan_batch_run(scan_view(*state), fp, ids_v.skip(j + 1), rest2, more_after, limit as nat),
                    (j + 1) as nat,
                )
            }) by {
                let rest = seq![e] + rest2;
                assert(ex_before + rest =~= ex + rest2);
                assert(scan_batch_run(start, fp, ids_v, ex_before + rest, more_after, limit as nat) == scan_shifted(
                    scan_batch_run(before, fp, ids_v.skip(j as int), rest, more_after, limit as nat),
                    j as nat,
                ));
                assert(rest[0] == e);
                assert(rest.drop_first() =~= rest2);
                assert(ids_v.skip(j as int).drop_first() =~= ids_v.skip(j + 1));
                assert(ids_v.skip(j as int)[0] == ids@[j as int]@);
                assert(ids_v.skip(j as int).len() > 1 <==> j + 1 < n);
            }
        }
        if stop {
            proof {
                let rest2 = Seq::<Examined>::new((n - (j + 1)) as nat, |i: int| Examined::Miss);
                let full = ex + rest2;
                assert(full.len() == ids@.len());
                assert forall|k: int| 0 <= k < j + 1 implies #[trigger] scanned_as(is_hit, size_with, full, k) by {
                    lemma_hits_before_prefix(ex, full, k);
                    assert(scanned_as(is_hit, size_with, ex, k));
                    assert(full[k] == ex[k]);
                }
                lemma_hits_before_prefix(ex, full, (j + 1) as int);
                assert(full[j as int] == e);
                assert(scan_batch_run(scan_view(*old(state)), fingerprint@, operation_ids(ids@), full, more_after, limit as nat)
                    == (scan_view(*state), true, (((j + 1) as int) - (if full[((j + 1) as int) - 1] == Examined::Overflow { 1int } else { 0 })) as nat));
                assert(kept@ == hits_before(full, (j + 1) as int));
            }
            return (true, kept);
        }
        j = j + 1;
    }
    proof {
        let empty = Seq::<Examined>::empty();
        assert(ex + empty =~= ex);
        assert(ids_v.skip(n as int).len() == 0);
        assert(scan_batch_run(start, fp, ids_v, ex + empty, more_after, limit as nat) == scan_shifted(
            scan_batch_run(scan_view(*state), fp, ids_v.skip(n as int), empty, more_after, limit as nat),
            n as nat,
        ));
        assert(scan_batch_run(scan_view(*old(state)), fingerprint@, operation_ids(ids@), ex, more_after, limit as nat)
            == (scan_view(*state), false, n as nat));
        assert(kept@ == hits_before(ex, n as int));
    }
    (false, kept)
}

/// Each selector of an activity search narrows it by exactly its own test:
/// setting a selector keeps an operation just when the search without that
/// selector keeps it and the operation carries the selected value (for the
/// time bounds, lies on the selected side of the bound). A search with no
/// selector keeps every operation.
pub proof fn lemma_activity_selectors(
    r: ActivitySearchRequest,
    op: OperationRecord,
    component: String,
    phase: OperationPhase,
    code: i64,
    kind: String,
    principal: String,
    run: String,
    session: String,
    after: i64,
    before: i64,
)
    ensures
        filters_pass(ActivitySearchRequest { session_id: Some(session), ..r }, op) == (filters_pass(
            ActivitySearchRequest { session_id: None, ..r },
            op,
        ) && op.session_id@ == session@),
        filters_pass(ActivitySearchRequest { run_id: Some(run), ..r }, op) == (filters_pass(
            ActivitySearchRequest { run_id: None, ..r },
            op,
        ) && op.experiment_id@ == run@),
        filters_pass(ActivitySearchRequest { principal_id: Some(principal), ..r }, op) == (filters_pass(
            ActivitySearchRequest { principal_id: None, ..r },
            op,
        ) && op.principal_id@ == principal@),
        filters_pass(ActivitySearchRequest { kind: Some(kind), ..r }, op) == (filters_pass(
            ActivitySearchRequest { kind: None, ..r },
            op,
        ) && op.kind@ == kind@),
        filters_pass(ActivitySearchRequest { component: Some(component), ..r }, op) == (filters_pass(
            ActivitySearchRequest { component: None, ..r },
            op,
        ) && exists|i: int| 0 <= i < op.components@.len() && op.components@[i]@ == component@),
        filters_pass(ActivitySearchRequest { phase: Some(phase), ..r }, op) == (filters_pass(
            ActivitySearchRequest { phase: None, ..r },
            op,
        ) && op.phase == phase),
        filters_pass(ActivitySearchRequest { native_exit_code: Some(code), ..r }, op) == (filters_pass(
            ActivitySearchRequest { native_exit_code: None, ..r },
            op,
        ) && op.native_exit_code == Some(code)),
        filters_pass(ActivitySearchRequest { accepted_after_unix: Some(after), ..r }, op) == (filters_pass(
            ActivitySearchRequest { accepted_after_unix: None, ..r },
            op,
        ) && op.accepted_at_unix >= after),
        filters_pass(ActivitySearchRequest { accepted_before_unix: Some(before), ..r }, op) == (filters_pass(
            ActivitySearchRequest { accepted_before_unix: None, ..r },
            op,
        ) && op.accepted_at_unix < before),
        (r.component is None && r.phase is None && r.native_exit_code is None && r.kind is None
            && r.principal_id is None && r.run_id is None && r.session_id is None && r.accepted_after_unix is None
            && r.accepted_before_unix is None) ==> filters_pass(r, op),
{
    let cs = views(op.components@);
    if cs.contains(component@) {
        let i = choose|i: int| 0 <= i < cs.len() && cs[i] == component@;
        assert(op.components@[i]@ == component@);
    }
    if exists|i: int| 0 <= i < op.components@.len() && op.components@[i]@ == component@ {
        let i = choose|i: int| 0 <= i < op.components@.len() && op.components@[i]@ == component@;
        assert(cs[i] == component@);
    }
}

} // verus!
