//! JSON documents as plain values, and RFC 6901 pointer resolution over them.
use crate::pointer::{escape_key, lemma_escape_key_round_trip, unescape_segment};
use crate::text::{
    chars_eq, chars_of, decimal, first_index_of, is_digit, lacks, lemma_decimal_shape,
    lemma_first_index_of_bounds, lemma_parse_usize_decimal, lemma_split_all_append, parse_usize,
    parse_usize_chars, split_all, split_all_exec,
};
use vstd::prelude::*;

verus! {

broadcast use vstd::string::group_string_axioms;

/// A JSON value. A number keeps its JSON text; an object keeps its members in
/// document order, each key once.
#[derive(Debug)]
pub enum Json {
    Null,
    Bool(bool),
    Number(String),
    Str(String),
    Array(Vec<Json>),
    Object(Vec<JsonMember>),
}

/// One member of a JSON object.
#[derive(Debug)]
pub struct JsonMember {
    pub key: String,
    pub value: Json,
}

/// An array index token: decimal digits with no sign and no leading zero.
pub open spec fn array_index(t: Seq<char>) -> Option<nat> {
    if t.len() > 0 && (t[0] == '+' || (t[0] == '0' && t.len() != 1)) {
        None
    } else {
        parse_usize(t)
    }
}

/// The first of the first `n` members whose key is `key`.
pub open spec fn first_member(ms: Seq<JsonMember>, key: Seq<char>, n: int) -> Option<int>
    decreases n,
{
    if n <= 0 {
        None
    } else {
        match first_member(ms, key, n - 1) {
            Some(i) => Some(i),
            None => if ms[n - 1].key@ == key {
                Some(n - 1)
            } else {
                None
            },
        }
    }
}

/// The value one reference token selects beneath `v`.
pub open spec fn child(v: Json, token: Seq<char>) -> Option<Json> {
    match v {
        Json::Object(ms) => match first_member(ms@, token, ms@.len() as int) {
            Some(i) => Some(ms@[i].value),
            None => None,
        },
        Json::Array(items) => match array_index(token) {
            Some(n) => if n < items@.len() {
                Some(items@[n as int])
            } else {
                None
            },
            None => None,
        },
        _ => None,
    }
}

/// The value a sequence of reference tokens selects beneath `v`.
pub open spec fn follow(v: Json, tokens: Seq<Seq<char>>) -> Option<Json>
    decreases tokens.len(),
{
    if tokens.len() == 0 {
        Some(v)
    } else {
        match child(v, tokens[0]) {
            Some(c) => follow(c, tokens.drop_first()),
            None => None,
        }
    }
}

/// The reference tokens of a pointer that starts with `/`, unescaped.
pub open spec fn pointer_tokens(p: Seq<char>) -> Seq<Seq<char>> {
    split_all(p.drop_first(), '/').map_values(|t: Seq<char>| unescape_segment(t))
}

/// What a pointer selects: the whole document for the empty pointer, nothing
/// for a pointer that does not start with `/`, else the tokens followed in turn.
pub open spec fn resolve(v: Json, p: Seq<char>) -> Option<Json> {
    if p.len() == 0 {
        Some(v)
    } else if p[0] != '/' {
        None
    } else {
        follow(v, pointer_tokens(p))
    }
}

/// The JSON text of a scalar; a string's own text.
pub open spec fn scalar_text(v: Json) -> Seq<char> {
    match v {
        Json::Null => "null"@,
        Json::Bool(b) => if b {
            "true"@
        } else {
            "false"@
        },
        Json::Number(n) => n@,
        Json::Str(s) => s@,
        _ => Seq::<char>::empty(),
    }
}

/// The pointer of an array item beneath `p`.
pub open spec fn item_pointer(p: Seq<char>, i: int) -> Seq<char> {
    p + seq!['/'] + decimal(i as nat)
}

/// The pointer of an object member beneath `p`.
pub open spec fn member_pointer(p: Seq<char>, key: Seq<char>) -> Seq<char> {
    p + seq!['/'] + escape_key(key)
}

/// The scalars of `v` in document order, `v` standing at pointer `p`: each
/// leaf's pointer, its text, and whether it is a string. Empty arrays and
/// objects have none.
pub open spec fn leaves(v: Json, p: Seq<char>) -> Seq<(Seq<char>, Seq<char>, bool)>
    decreases v, 1int, 0int,
{
    match v {
        Json::Array(items) => item_leaves(v, p, items@.len() as int),
        Json::Object(ms) => member_leaves(v, p, ms@.len() as int),
        Json::Str(s) => seq![(p, s@, true)],
        _ => seq![(p, scalar_text(v), false)],
    }
}

/// The leaves of the first `n` items of an array.
pub open spec fn item_leaves(v: Json, p: Seq<char>, n: int) -> Seq<(Seq<char>, Seq<char>, bool)>
    decreases v, 0int, n,
{
    match v {
        Json::Array(items) => if n <= 0 || n > items@.len() {
            Seq::empty()
        } else {
            item_leaves(v, p, n - 1) + leaves(items@[n - 1], item_pointer(p, n - 1))
        },
        _ => Seq::empty(),
    }
}

/// The leaves of the first `n` members of an object.
pub open spec fn member_leaves(v: Json, p: Seq<char>, n: int) -> Seq<(Seq<char>, Seq<char>, bool)>
    decreases v, 0int, n,
{
    match v {
        Json::Object(ms) => if n <= 0 || n > ms@.len() {
            Seq::empty()
        } else {
            member_leaves(v, p, n - 1) + leaves(ms@[n - 1].value, member_pointer(p, ms@[n - 1].key@))
        },
        _ => Seq::empty(),
    }
}

/// Decodes one reference token: `~1` is `/` and `~0` is `~`.
pub fn unescape_token(s: &Vec<char>) -> (r: Vec<char>)
    ensures
        r@ == unescape_segment(s@),
{
    let mut out: Vec<char> = Vec::new();
    let mut i: usize = 0;
    assert(s@.skip(0) =~= s@);
    assert(out@ + unescape_segment(s@) =~= unescape_segment(s@));
    while i < s.len()
        invariant
            i <= s@.len(),
            out@ + unescape_segment(s@.skip(i as int)) == unescape_segment(s@),
        decreases s@.len() - i,
    {
        let ghost rest = s@.skip(i as int);
        let ghost before = out@;
        if s[i] == '~' && i + 1 < s.len() && (s[i + 1] == '1' || s[i + 1] == '0') {
            assert(rest.skip(2) =~= s@.skip(i + 2));
            assert(rest[0] == '~' && rest[1] == s@[i + 1]);
            if s[i + 1] == '1' {
                out.push('/');
                assert(unescape_segment(rest) == seq!['/'] + unescape_segment(rest.skip(2)));
            } else {
                out.push('~');
                assert(unescape_segment(rest) == seq!['~'] + unescape_segment(rest.skip(2)));
            }
            i = i + 2;
            assert(out@ + unescape_segment(s@.skip(i as int)) =~= before + unescape_segment(rest));
        } else {
            assert(rest.drop_first() =~= s@.skip(i + 1));
            assert(rest[0] == s@[i as int]);
            assert(unescape_segment(rest) == seq![s@[i as int]] + unescape_segment(rest.drop_first()));
            out.push(s[i]);
            i = i + 1;
            assert(out@ + unescape_segment(s@.skip(i as int)) =~= before + unescape_segment(rest));
        }
    }
    assert(s@.skip(i as int) =~= Seq::<char>::empty());
    assert(unescape_segment(Seq::<char>::empty()) =~= Seq::<char>::empty());
    assert(out@ + Seq::<char>::empty() =~= out@);
    out
}

/// Reads an array index token.
pub fn array_index_exec(t: &Vec<char>) -> (r: Option<usize>)
    ensures
        match r {
            Some(n) => array_index(t@) == Some(n as nat),
            None => array_index(t@) is None,
        },
{
    if t.len() > 0 && (t[0] == '+' || (t[0] == '0' && t.len() != 1)) {
        None
    } else {
        parse_usize_chars(t.as_slice())
    }
}

proof fn lemma_first_member_stable(ms: Seq<JsonMember>, key: Seq<char>, a: int, b: int)
    requires
        a <= b,
        first_member(ms, key, a) is Some,
    ensures
        first_member(ms, key, b) == first_member(ms, key, a),
    decreases b - a,
{
    if b > a {
        lemma_first_member_stable(ms, key, a, b - 1);
    }
}

/// The position of the member named `key`.
pub fn find_member(ms: &Vec<JsonMember>, key: &Vec<char>) -> (r: Option<usize>)
    ensures
        match r {
            Some(i) => i < ms@.len() && first_member(ms@, key@, ms@.len() as int) == Some(i as int),
            None => first_member(ms@, key@, ms@.len() as int) is None,
        },
{
    let mut i: usize = 0;
    while i < ms.len()
        invariant
            i <= ms@.len(),
            first_member(ms@, key@, i as int) is None,
        decreases ms@.len() - i,
    {
        let k = chars_of(ms[i].key.as_str());
        if chars_eq(k.as_slice(), key.as_slice()) {
            assert(first_member(ms@, key@, i + 1) == Some(i as int));
            proof {
                lemma_first_member_stable(ms@, key@, i + 1, ms@.len() as int);
            }
            return Some(i);
        }
        i = i + 1;
    }
    None
}

/// The value one reference token selects beneath `v`.
pub fn child_exec<'a>(v: &'a Json, token: &Vec<char>) -> (r: Option<&'a Json>)
    ensures
        match r {
            Some(c) => child(*v, token@) == Some(*c),
            None => child(*v, token@) is None,
        },
{
    match v {
        Json::Object(ms) => match find_member(ms, token) {
            Some(i) => Some(&ms[i].value),
            None => None,
        },
        Json::Array(items) => match array_index_exec(token) {
            Some(n) => if n < items.len() {
                Some(&items[n])
            } else {
                None
            },
            None => None,
        },
        _ => None,
    }
}

/// Resolves an RFC 6901 pointer against a document.
pub fn lookup<'a>(v: &'a Json, pointer: &str) -> (r: Option<&'a Json>)
    ensures
        match r {
            Some(c) => resolve(*v, pointer@) == Some(*c),
            None => resolve(*v, pointer@) is None,
        },
{
    let chars = chars_of(pointer);
    if chars.len() == 0 {
        return Some(v);
    }
    if chars[0] != '/' {
        return None;
    }
    let rest = crate::text::chars_range(&chars, 1, chars.len());
    assert(rest@ =~= pointer@.drop_first());
    let pieces = split_all_exec(rest.as_slice(), '/');
    let ghost tokens = pointer_tokens(pointer@);
    assert(tokens.len() == pieces@.len());
    let mut cur: &Json = v;
    let mut j: usize = 0;
    assert(tokens.skip(0) =~= tokens);
    while j < pieces.len()
        invariant
            j <= pieces@.len(),
            tokens == pointer_tokens(pointer@),
            tokens.len() == pieces@.len(),
            pieces@.map_values(|p: Vec<char>| p@) == split_all(pointer@.drop_first(), '/'),
            resolve(*v, pointer@) == follow(*cur, tokens.skip(j as int)),
            pointer@.len() > 0 && pointer@[0] == '/',
        decreases pieces@.len() - j,
    {
        let token = unescape_token(&pieces[j]);
        assert(token@ == tokens[j as int]);
        assert(tokens.skip(j as int)[0] == tokens[j as int]);
        assert(tokens.skip(j as int).drop_first() =~= tokens.skip(j + 1));
        match child_exec(cur, &token) {
            Some(c) => {
                cur = c;
            },
            None => {
                return None;
            },
        }
        j = j + 1;
    }
    assert(tokens.skip(j as int).len() == 0);
    Some(cur)
}

/// The value of an object's member named `key`; nothing for any other value.
pub open spec fn member_value(v: Json, key: Seq<char>) -> Option<Json> {
    match v {
        Json::Object(ms) => match first_member(ms@, key, ms@.len() as int) {
            Some(i) => Some(ms@[i].value),
            None => None,
        },
        _ => None,
    }
}

/// The value of an object's member named `key`.
pub fn get_member<'a>(v: &'a Json, key: &str) -> (r: Option<&'a Json>)
    ensures
        match r {
            Some(c) => member_value(*v, key@) == Some(*c),
            None => member_value(*v, key@) is None,
        },
{
    match v {
        Json::Object(ms) => {
            let k = chars_of(key);
            match find_member(ms, &k) {
                Some(i) => Some(&ms[i].value),
                None => None,
            }
        },
        _ => None,
    }
}

// ---------------------------------------------------------------------------
// Pointers of members, items and leaves
// ---------------------------------------------------------------------------

/// Every object in `v`, at any depth, has each key once, and every array's
/// length fits a `usize`.
pub open spec fn well_formed(v: Json) -> bool
    decreases v, 1int, 0int,
{
    match v {
        Json::Array(items) => items@.len() <= usize::MAX && items_well_formed(v, items@.len() as int),
        Json::Object(ms) => keys_distinct(ms@) && members_well_formed(v, ms@.len() as int),
        _ => true,
    }
}

/// The first `n` items of an array are well formed.
pub open spec fn items_well_formed(v: Json, n: int) -> bool
    decreases v, 0int, n,
{
    match v {
        Json::Array(items) => n <= 0 || n > items@.len() || (items_well_formed(v, n - 1) && well_formed(
            items@[n - 1],
        )),
        _ => true,
    }
}

/// The values of the first `n` members of an object are well formed.
pub open spec fn members_well_formed(v: Json, n: int) -> bool
    decreases v, 0int, n,
{
    match v {
        Json::Object(ms) => n <= 0 || n > ms@.len() || (members_well_formed(v, n - 1) && well_formed(
            ms@[n - 1].value,
        )),
        _ => true,
    }
}

/// Each key occurs once.
pub open spec fn keys_distinct(ms: Seq<JsonMember>) -> bool {
    forall|i: int, j: int| 0 <= i < j < ms.len() ==> ms[i].key@ != ms[j].key@
}

proof fn lemma_items_well_formed_at(v: Json, n: int, k: int)
    requires
        v is Array,
        0 <= k < n <= v->Array_0@.len(),
        items_well_formed(v, n),
    ensures
        well_formed(v->Array_0@[k]),
    decreases n,
{
    if k < n - 1 {
        lemma_items_well_formed_at(v, n - 1, k);
    }
}

proof fn lemma_members_well_formed_at(v: Json, n: int, k: int)
    requires
        v is Object,
        0 <= k < n <= v->Object_0@.len(),
        members_well_formed(v, n),
    ensures
        well_formed(v->Object_0@[k].value),
    decreases n,
{
    if k < n - 1 {
        lemma_members_well_formed_at(v, n - 1, k);
    }
}

proof fn lemma_first_member_distinct(ms: Seq<JsonMember>, k: int, n: int)
    requires
        keys_distinct(ms),
        0 <= k < ms.len(),
        0 <= n <= ms.len(),
    ensures
        first_member(ms, ms[k].key@, n) == (if n > k { Some(k) } else { None::<int> }),
    decreases n,
{
    if n > 0 {
        lemma_first_member_distinct(ms, k, n - 1);
    }
}

proof fn lemma_follow_push(v: Json, ts: Seq<Seq<char>>, t: Seq<char>)
    ensures
        follow(v, ts.push(t)) == match follow(v, ts) {
            Some(w) => child(w, t),
            None => None,
        },
    decreases ts.len(),
{
    if ts.len() == 0 {
        assert(ts.push(t) =~= seq![t]);
        assert(seq![t].drop_first() =~= Seq::<Seq<char>>::empty());
        match child(v, t) {
            Some(c) => assert(follow(c, Seq::<Seq<char>>::empty()) == Some(c)),
            None => {},
        }
    } else {
        assert(ts.push(t)[0] == ts[0]);
        assert(ts.push(t).drop_first() =~= ts.drop_first().push(t));
        match child(v, ts[0]) {
            Some(c) => lemma_follow_push(c, ts.drop_first(), t),
            None => {},
        }
    }
}

proof fn lemma_resolve_append(doc: Json, p: Seq<char>, seg: Seq<char>)
    requires
        p.len() == 0 || p[0] == '/',
        lacks(seg, '/'),
    ensures
        resolve(doc, p + seq!['/'] + seg) == match resolve(doc, p) {
            Some(w) => child(w, unescape_segment(seg)),
            None => None,
        },
{
    let q = p + seq!['/'] + seg;
    assert(q[0] == '/') by {
        if p.len() > 0 {
            assert(q[0] == p[0]);
        }
    }
    if p.len() == 0 {
        assert(q.drop_first() =~= seg);
        lemma_first_index_of_bounds(seg, '/');
        if first_index_of(seg, '/') is Some {
            let j = first_index_of(seg, '/')->Some_0;
            assert(seg[j] == '/');
        }
        assert(split_all(seg, '/') == seq![seg]);
        assert(pointer_tokens(q) =~= seq![unescape_segment(seg)]);
        lemma_follow_push(doc, Seq::<Seq<char>>::empty(), unescape_segment(seg));
        assert(Seq::<Seq<char>>::empty().push(unescape_segment(seg)) =~= seq![unescape_segment(seg)]);
    } else {
        assert(q.drop_first() =~= p.drop_first() + seq!['/'] + seg);
        lemma_split_all_append(p.drop_first(), seg, '/');
        assert(pointer_tokens(q) =~= pointer_tokens(p).push(unescape_segment(seg)));
        lemma_follow_push(doc, pointer_tokens(p), unescape_segment(seg));
    }
}

/// The pointer of a member beneath a selected object (its key escaped)
/// selects that member's value.
pub proof fn lemma_member_pointer_resolves(doc: Json, p: Seq<char>, v: Json, k: int)
    requires
        resolve(doc, p) == Some(v),
        v is Object,
        keys_distinct(v->Object_0@),
        0 <= k < v->Object_0@.len(),
    ensures
        resolve(doc, member_pointer(p, v->Object_0@[k].key@)) == Some(v->Object_0@[k].value),
{
    let ms = v->Object_0@;
    let key = ms[k].key@;
    lemma_escape_key_round_trip(key);
    lemma_resolve_append(doc, p, escape_key(key));
    lemma_first_member_distinct(ms, k, ms.len() as int);
}

proof fn lemma_unescape_plain(s: Seq<char>)
    requires
        forall|i: int| 0 <= i < s.len() ==> s[i] != '~',
    ensures
        unescape_segment(s) == s,
    decreases s.len(),
{
    if s.len() > 0 {
        lemma_unescape_plain(s.drop_first());
        assert(seq![s[0]] + s.drop_first() =~= s);
    }
}

proof fn lemma_decimal_leading(n: nat)
    ensures
        decimal(n)[0] == '0' ==> n == 0,
    decreases n,
{
    if n >= 10 {
        lemma_decimal_leading(n / 10);
        lemma_decimal_shape(n / 10);
        assert(decimal(n)[0] == decimal(n / 10)[0]);
    }
}

/// The pointer of an item beneath a selected array (its index in decimal)
/// selects that item.
pub proof fn lemma_item_pointer_resolves(doc: Json, p: Seq<char>, v: Json, k: int)
    requires
        resolve(doc, p) == Some(v),
        v is Array,
        0 <= k < v->Array_0@.len(),
        k <= usize::MAX,
    ensures
        resolve(doc, item_pointer(p, k)) == Some(v->Array_0@[k]),
{
    let d = decimal(k as nat);
    lemma_decimal_shape(k as nat);
    lemma_decimal_leading(k as nat);
    lemma_parse_usize_decimal(k as usize);
    assert forall|i: int| 0 <= i < d.len() implies d[i] != '~' by {
        assert(is_digit(d[i]));
    }
    lemma_unescape_plain(d);
    assert(lacks(d, '/'));
    lemma_resolve_append(doc, p, d);
    if d[0] == '0' {
        assert(d =~= seq!['0']) by {
            assert(k == 0);
        }
    }
    assert(array_index(d) == Some(k as nat));
}

/// Every scalar a search reports can be read back: the pointer of each leaf
/// of a well-formed value, itself selected at `p`, selects a scalar with that
/// leaf's text, a string exactly when the leaf says so.
pub proof fn lemma_leaf_pointers_resolve(doc: Json, p: Seq<char>, v: Json, i: int)
    requires
        resolve(doc, p) == Some(v),
        well_formed(v),
        0 <= i < leaves(v, p).len(),
    ensures
        ({
            let leaf = leaves(v, p)[i];
            exists|w: Json|
                resolve(doc, leaf.0) == Some(w) && !(w is Array) && !(w is Object) && scalar_text(w)
                    == leaf.1 && (w is Str) == leaf.2
        }),
    decreases v, 1int, 0int,
{
    match v {
        Json::Array(items) => {
            lemma_item_leaf_resolves(doc, p, v, items@.len() as int, i);
        },
        Json::Object(ms) => {
            lemma_member_leaf_resolves(doc, p, v, ms@.len() as int, i);
        },
        _ => {
            assert(resolve(doc, leaves(v, p)[i].0) == Some(v));
        },
    }
}

proof fn lemma_item_leaf_resolves(doc: Json, p: Seq<char>, v: Json, n: int, i: int)
    requires
        resolve(doc, p) == Some(v),
        v is Array,
        well_formed(v),
        0 <= n <= v->Array_0@.len(),
        0 <= i < item_leaves(v, p, n).len(),
    ensures
        ({
            let leaf = item_leaves(v, p, n)[i];
            exists|w: Json|
                resolve(doc, leaf.0) == Some(w) && !(w is Array) && !(w is Object) && scalar_text(w)
                    == leaf.1 && (w is Str) == leaf.2
        }),
    decreases v, 0int, n,
{
    let items = v->Array_0;
    if n > 0 {
        let before = item_leaves(v, p, n - 1);
        let child_p = item_pointer(p, n - 1);
        let c = items@[n - 1];
        assert(item_leaves(v, p, n) == before + leaves(c, child_p));
        if i < before.len() {
            assert(item_leaves(v, p, n)[i] == before[i]);
            lemma_item_leaf_resolves(doc, p, v, n - 1, i);
        } else {
            assert(item_leaves(v, p, n)[i] == leaves(c, child_p)[i - before.len()]);
            lemma_item_pointer_resolves(doc, p, v, n - 1);
            lemma_items_well_formed_at(v, items@.len() as int, n - 1);
            assert(decreases_to!(v => items));
            assert(decreases_to!(items => items@));
            assert(decreases_to!(items@ => items@[n - 1]));
            lemma_leaf_pointers_resolve(doc, child_p, c, i - before.len());
        }
    }
}

proof fn lemma_member_leaf_resolves(doc: Json, p: Seq<char>, v: Json, n: int, i: int)
    requires
        resolve(doc, p) == Some(v),
        v is Object,
        well_formed(v),
        0 <= n <= v->Object_0@.len(),
        0 <= i < member_leaves(v, p, n).len(),
    ensures
        ({
            let leaf = member_leaves(v, p, n)[i];
            exists|w: Json|
                resolve(doc, leaf.0) == Some(w) && !(w is Array) && !(w is Object) && scalar_text(w)
                    == leaf.1 && (w is Str) == leaf.2
        }),
    decreases v, 0int, n,
{
    let ms = v->Object_0;
    if n > 0 {
        let before = member_leaves(v, p, n - 1);
        let child_p = member_pointer(p, ms@[n - 1].key@);
        let c = ms@[n - 1].value;
        assert(member_leaves(v, p, n) == before + leaves(c, child_p));
        if i < before.len() {
            assert(member_leaves(v, p, n)[i] == before[i]);
            lemma_member_leaf_resolves(doc, p, v, n - 1, i);
        } else {
            assert(member_leaves(v, p, n)[i] == leaves(c, child_p)[i - before.len()]);
            lemma_member_pointer_resolves(doc, p, v, n - 1);
            lemma_members_well_formed_at(v, ms@.len() as int, n - 1);
            lemma_leaf_pointers_resolve(doc, child_p, c, i - before.len());
        }
    }
}

/// What each field selects from a value: the field, and the value its
/// pointer resolves to, if any.
pub fn select_fields<'a>(v: &'a Json, fields: &Vec<String>) -> (r: Vec<(String, Option<&'a Json>)>)
    ensures
        r@.len() == fields@.len(),
        forall|i: int|
            0 <= i < fields@.len() ==> (#[trigger] r@[i]).0@ == fields@[i]@ && match r@[i].1 {
                Some(c) => resolve(*v, fields@[i]@) == Some(*c),
                None => resolve(*v, fields@[i]@) is None,
            },
{
    let mut out: Vec<(String, Option<&'a Json>)> = Vec::new();
    let mut i: usize = 0;
    while i < fields.len()
        invariant
            i <= fields@.len(),
            out@.len() == i,
            forall|k: int|
                0 <= k < i ==> (#[trigger] out@[k]).0@ == fields@[k]@ && match out@[k].1 {
                    Some(c) => resolve(*v, fields@[k]@) == Some(*c),
                    None => resolve(*v, fields@[k]@) is None,
                },
        decreases fields@.len() - i,
    {
        let selected = lookup(v, fields[i].as_str());
        out.push((fields[i].clone(), selected));
        i = i + 1;
    }
    out
}

} // verus!
