//! Bounded slices of a selected JSON value: window checks and the halving
//! search for a slice whose response fits the agent budget.
use crate::json::{Json, item_pointer, member_pointer};
use crate::limits::MAX_AGENT_RESPONSE_BYTES;
use crate::pointer::escape_pointer_key;
use crate::text::{chars_of, push_char, render_u64, string_of_range};
use vstd::prelude::*;

verus! {

/// What a read sees of the value its pointer selects.
#[derive(Clone, Copy, Debug, PartialEq, Eq, Structural)]
pub enum SelectedShape {
    /// A string of this many Unicode characters.
    Text { chars: usize },
    /// An array of this many items.
    List { items: usize },
    /// An object of this many entries, whose compact JSON takes this many bytes.
    Record { entries: usize, wire_bytes: usize },
    /// Any other JSON value.
    Scalar,
}

/// The slice length after `k` halvings of `len`.
pub open spec fn halved(len: nat, k: nat) -> nat
    decreases k,
{
    if k == 0 {
        len
    } else {
        halved(len, (k - 1) as nat) / 2
    }
}

/// Whether `n` is the `k`-th candidate of the halving search from `len`: every
/// earlier candidate was more than one and its response did not fit.
pub open spec fn tried_before<F: Fn(usize) -> usize>(size_of: F, len: nat, k: nat) -> bool {
    forall|j: nat|
        j < k ==> halved(len, j) > 1 && exists|s: usize|
            #[trigger] size_of.ensures((halved(len, j) as usize,), s) && s > MAX_AGENT_RESPONSE_BYTES
}

/// Whether the halving search from `len` ran out: every candidate above one
/// did not fit, and the last candidate, of at most one, was measured and did
/// not fit either.
pub open spec fn halving_exhausted<F: Fn(usize) -> usize>(size_of: F, len: nat) -> bool {
    exists|k: nat|
        #![trigger halved(len, k)]
        halved(len, k) <= 1 && tried_before(size_of, len, k) && exists|s: usize|
            #[trigger] size_of.ensures((halved(len, k) as usize,), s) && s > MAX_AGENT_RESPONSE_BYTES
}

pub(crate) proof fn lemma_halved_bound(len: nat, k: nat)
    ensures
        halved(len, k) <= len,
    decreases k,
{
    if k > 0 {
        lemma_halved_bound(len, (k - 1) as nat);
    }
}

/// Halves a slice length until the response that holds it fits the budget.
/// `size_of(n)` is the wire size of the response holding `n` characters or items.
/// `Some(n)`: `n` is the first candidate that fits. `None`: no candidate above
/// one fit and a candidate of at most one did not either.
pub fn fit_halving<F: Fn(usize) -> usize>(initial: usize, size_of: F) -> (r: Option<usize>)
    requires
        forall|n: usize| size_of.requires((n,)),
    ensures
        match r {
            Some(n) => exists|k: nat|
                #![trigger halved(initial as nat, k)]
                n == halved(initial as nat, k) && tried_before(size_of, initial as nat, k) && exists|
                    s: usize,
                | #[trigger] size_of.ensures((n,), s) && s <= MAX_AGENT_RESPONSE_BYTES,
            None => halving_exhausted(size_of, initial as nat),
        },
{
    let mut length = initial;
    let ghost mut k: nat = 0;
    loop
        invariant
            length == halved(initial as nat, k),
            tried_before(size_of, initial as nat, k),
            forall|n: usize| size_of.requires((n,)),
        decreases length,
    {
        let size = size_of(length);
        if size <= MAX_AGENT_RESPONSE_BYTES {
            assert(halved(initial as nat, k) == length);
            return Some(length);
        }
        if length <= 1 {
            assert(size_of.ensures((halved(initial as nat, k) as usize,), size));
            return None;
        }
        proof {
            assert forall|j: nat| j < k + 1 implies halved(initial as nat, j) > 1 && exists|s: usize|
                #[trigger] size_of.ensures((halved(initial as nat, j) as usize,), s) && s
                    > MAX_AGENT_RESPONSE_BYTES by {
                if j == k {
                    assert(size_of.ensures((halved(initial as nat, j) as usize,), size));
                }
            }
            k = k + 1;
        }
        length = length / 2;
    }
}

/// Characters or items in the selected value, for a read that may scan objects.
pub open spec fn slice_total(shape: SelectedShape, scan: bool) -> Option<nat> {
    match shape {
        SelectedShape::Text { chars } => Some(chars as nat),
        SelectedShape::List { items } => Some(items as nat),
        SelectedShape::Record { entries, .. } => if scan {
            Some(entries as nat)
        } else {
            None
        },
        SelectedShape::Scalar => None,
    }
}

/// The same count, computed.
pub fn total_of(shape: SelectedShape, scan: bool) -> (r: Option<usize>)
    ensures
        match r {
            Some(n) => slice_total(shape, scan) == Some(n as nat),
            None => slice_total(shape, scan) is None,
        },
{
    match shape {
        SelectedShape::Text { chars } => Some(chars),
        SelectedShape::List { items } => Some(items),
        SelectedShape::Record { entries, .. } => if scan {
            Some(entries)
        } else {
            None
        },
        SelectedShape::Scalar => None,
    }
}

/// An offset is valid inside a string or array (up to its end) and must be zero otherwise.
pub open spec fn offset_ok(offset: nat, total: Option<nat>) -> bool {
    match total {
        Some(n) => offset <= n,
        None => offset == 0,
    }
}

/// The first slice length to try: the rest of the value, at most `limit`.
pub open spec fn initial_length(offset: nat, limit: nat, total: Option<nat>) -> nat {
    match total {
        Some(n) => if n - offset < limit {
            (n - offset) as nat
        } else {
            limit
        },
        None => 0,
    }
}

/// The first slice length, for a valid offset.
pub fn first_length(offset: usize, limit: usize, total: Option<usize>) -> (r: usize)
    requires
        offset_ok(
            offset as nat,
            match total {
                Some(n) => Some(n as nat),
                None => None,
            },
        ),
    ensures
        r == initial_length(
            offset as nat,
            limit as nat,
            match total {
                Some(n) => Some(n as nat),
                None => None,
            },
        ),
{
    match total {
        Some(n) => if n - offset < limit {
            n - offset
        } else {
            limit
        },
        None => 0,
    }
}

/// Where the next slice starts, if the value continues past this one.
pub open spec fn next_offset_spec(offset: nat, length: nat, total: Option<nat>) -> Option<nat> {
    match total {
        Some(n) => if offset + length < n {
            Some(offset + length)
        } else {
            None
        },
        None => None,
    }
}

/// Where the next slice starts, if the value continues past this one.
pub fn next_offset(offset: usize, length: usize, total: Option<usize>) -> (r: Option<usize>)
    requires
        offset + length <= usize::MAX,
    ensures
        match next_offset_spec(
            offset as nat,
            length as nat,
            match total {
                Some(n) => Some(n as nat),
                None => None,
            },
        ) {
            Some(m) => r == Some(m as usize),
            None => r is None,
        },
{
    match total {
        Some(n) => if offset + length < n {
            Some(offset + length)
        } else {
            None
        },
        None => None,
    }
}

// ---------------------------------------------------------------------------
// Windows of a selected value
// ---------------------------------------------------------------------------

/// What a read sees of a value: a string's characters, an array's items, an
/// object's entries with its compact JSON size, or any other value.
pub open spec fn shape_is<G: Fn(&Json) -> usize>(shape: SelectedShape, v: Json, wire_size: G) -> bool {
    match v {
        Json::Str(s) => shape == SelectedShape::Text { chars: s@.len() as usize },
        Json::Array(items) => shape == SelectedShape::List { items: items@.len() as usize },
        Json::Object(ms) => shape matches SelectedShape::Record { entries, wire_bytes } && entries
            == ms@.len() && wire_size.ensures((&v,), wire_bytes),
        _ => shape == SelectedShape::Scalar,
    }
}

/// The shape of a selected value; `wire_size` gives an object's compact JSON size.
pub fn shape_of<G: Fn(&Json) -> usize>(v: &Json, wire_size: &G) -> (r: SelectedShape)
    requires
        forall|x: &Json| wire_size.requires((x,)),
    ensures
        shape_is(r, *v, *wire_size),
{
    match v {
        Json::Str(s) => SelectedShape::Text { chars: s.as_str().unicode_len() },
        Json::Array(items) => SelectedShape::List { items: items.len() },
        Json::Object(ms) => {
            let wire_bytes = wire_size(v);
            SelectedShape::Record { entries: ms.len(), wire_bytes }
        },
        _ => SelectedShape::Scalar,
    }
}

/// The unit of a slice's offset and length.
#[derive(Clone, Copy, Debug, PartialEq, Eq, Structural)]
pub enum SliceUnit {
    Characters,
    Items,
}

impl SliceUnit {
    /// The unit's wire name.
    pub fn text(&self) -> (r: &'static str)
        ensures
            r@ == (match *self {
                SliceUnit::Characters => "characters"@,
                SliceUnit::Items => "items"@,
            }),
    {
        match self {
            SliceUnit::Characters => "characters",
            SliceUnit::Items => "items",
        }
    }
}

/// An optional count as a natural number.
pub open spec fn nat_option(o: Option<usize>) -> Option<nat> {
    match o {
        Some(n) => Some(n as nat),
        None => None,
    }
}

/// The slice a read returns.
#[derive(Debug)]
pub enum Window<'a> {
    /// Characters of a string.
    Text(String),
    /// Items of an array.
    Items(Vec<&'a Json>),
    /// Any other value, whole.
    Whole(&'a Json),
}

/// `w` is the slice of `v` of `length` characters or items from `offset`.
pub open spec fn window_is(w: Window, v: Json, offset: nat, length: nat) -> bool {
    match v {
        Json::Str(s) => w matches Window::Text(t) && t@ == s@.subrange(offset as int, (offset + length) as int),
        Json::Array(items) => w matches Window::Items(xs) && xs@.len() == length && forall|i: int|
            0 <= i < length ==> *(#[trigger] xs@[i]) == items@[offset + i],
        _ => w matches Window::Whole(x) && *x == v,
    }
}

/// The number of characters or items a slice can come from; nothing for other values.
pub open spec fn sliceable_len(v: Json) -> Option<nat> {
    match v {
        Json::Str(s) => Some(s@.len()),
        Json::Array(items) => Some(items@.len()),
        _ => None,
    }
}

/// Takes `length` characters or items of `v` from `offset`.
pub fn window<'a>(v: &'a Json, offset: usize, length: usize) -> (r: Window<'a>)
    requires
        sliceable_len(*v) matches Some(n) ==> offset + length <= n,
    ensures
        window_is(r, *v, offset as nat, length as nat),
{
    match v {
        Json::Str(s) => {
            let chars = chars_of(s.as_str());
            let n = chars.len();
            assert(offset + length <= n);
            Window::Text(string_of_range(&chars, offset, offset + length))
        },
        Json::Array(items) => {
            let mut xs: Vec<&'a Json> = Vec::new();
            let n = items.len();
            let mut i: usize = 0;
            while i < length
                invariant
                    i <= length,
                    offset + length <= items@.len(),
                    n == items@.len(),
                    xs@.len() == i,
                    forall|k: int| 0 <= k < i ==> *(#[trigger] xs@[k]) == items@[offset + k],
                decreases length - i,
            {
                xs.push(&items[offset + i]);
                i = i + 1;
            }
            Window::Items(xs)
        },
        _ => Window::Whole(v),
    }
}

/// One entry of a scan: its pointer and the compact JSON size of its value.
#[derive(Clone, Debug)]
pub struct ScanEntry {
    pub path: String,
    pub bytes: usize,
}

/// `es` lists `length` entries of `v` from `offset`, beneath `pointer`: an
/// object's members by escaped key, an array's items by index.
pub open spec fn entries_are<G: Fn(&Json) -> usize>(
    es: Seq<ScanEntry>,
    v: Json,
    pointer: Seq<char>,
    offset: nat,
    length: nat,
    wire_size: G,
) -> bool {
    es.len() == length && match v {
        Json::Object(ms) => forall|i: int|
            0 <= i < length ==> (#[trigger] es[i]).path@ == member_pointer(pointer, ms@[offset + i].key@)
                && wire_size.ensures((&ms@[offset + i].value,), es[i].bytes),
        Json::Array(items) => forall|i: int|
            0 <= i < length ==> (#[trigger] es[i]).path@ == item_pointer(pointer, offset + i)
                && wire_size.ensures((&items@[offset + i],), es[i].bytes),
        _ => false,
    }
}

/// The entries of a scan window of an object or array.
pub fn scan_entries<G: Fn(&Json) -> usize>(
    v: &Json,
    pointer: &str,
    offset: usize,
    length: usize,
    wire_size: &G,
) -> (r: Vec<ScanEntry>)
    requires
        v is Object || v is Array,
        match *v {
            Json::Object(ms) => offset + length <= ms@.len(),
            Json::Array(items) => offset + length <= items@.len(),
            _ => true,
        },
        forall|x: &Json| wire_size.requires((x,)),
    ensures
        entries_are(r@, *v, pointer@, offset as nat, length as nat, *wire_size),
{
    let mut es: Vec<ScanEntry> = Vec::new();
    let mut i: usize = 0;
    match v {
        Json::Object(ms) => {
            let n = ms.len();
            while i < length
                invariant
                    i <= length,
                    offset + length <= ms@.len(),
                    n == ms@.len(),
                    es@.len() == i,
                    forall|x: &Json| wire_size.requires((x,)),
                    forall|k: int|
                        0 <= k < i ==> (#[trigger] es@[k]).path@ == member_pointer(pointer@, ms@[offset + k].key@)
                            && wire_size.ensures((&ms@[offset + k].value,), es@[k].bytes),
                decreases length - i,
            {
                let member = &ms[offset + i];
                let mut path = pointer.to_owned();
                push_char(&mut path, '/');
                let key = escape_pointer_key(member.key.as_str());
                path.append(key.as_str());
                let bytes = wire_size(&member.value);
                es.push(ScanEntry { path, bytes });
                i = i + 1;
            }
        },
        Json::Array(items) => {
            let n = items.len();
            while i < length
                invariant
                    i <= length,
                    offset + length <= items@.len(),
                    n == items@.len(),
                    es@.len() == i,
                    forall|x: &Json| wire_size.requires((x,)),
                    forall|k: int|
                        0 <= k < i ==> (#[trigger] es@[k]).path@ == item_pointer(pointer@, offset + k)
                            && wire_size.ensures((&items@[offset + k],), es@[k].bytes),
                decreases length - i,
            {
                let item = &items[offset + i];
                let mut path = pointer.to_owned();
                push_char(&mut path, '/');
                let index = render_u64((offset + i) as u64);
                path.append(index.as_str());
                let bytes = wire_size(item);
                es.push(ScanEntry { path, bytes });
                i = i + 1;
            }
        },
        _ => {},
    }
    es
}

/// Whether `lens` are the window lengths of reads of a value of `total`
/// characters or items, followed from `offset`: each window stays within the
/// value, the next read starts at the returned next offset, and only the last
/// read returns none.
pub open spec fn reads_follow(total: nat, offset: nat, lens: Seq<nat>) -> bool
    decreases lens.len(),
{
    &&& lens.len() > 0
    &&& offset + lens[0] <= total
    &&& match next_offset_spec(offset, lens[0], Some(total)) {
        None => lens.len() == 1,
        Some(next) => lens.len() > 1 && reads_follow(total, next, lens.drop_first()),
    }
}

/// The windows those reads return, one after the other.
pub open spec fn reads_listing<A>(value: Seq<A>, offset: nat, lens: Seq<nat>) -> Seq<A>
    decreases lens.len(),
{
    if lens.len() == 0 {
        Seq::empty()
    } else {
        let window = value.subrange(offset as int, (offset + lens[0]) as int);
        match next_offset_spec(offset, lens[0], Some(value.len())) {
            Some(next) => window + reads_listing(value, next, lens.drop_first()),
            None => window,
        }
    }
}

/// Reading a string (or an array) window by window, each read starting at the
/// next offset the previous one returned, rebuilds it exactly: the windows,
/// joined in order, are the whole value.
pub proof fn lemma_reads_rebuild_value<A>(value: Seq<A>, lens: Seq<nat>)
    requires
        reads_follow(value.len(), 0, lens),
    ensures
        reads_listing(value, 0, lens) == value,
{
    lemma_reads_from(value, 0, lens);
    assert(value.skip(0) =~= value);
}

proof fn lemma_reads_from<A>(value: Seq<A>, offset: nat, lens: Seq<nat>)
    requires
        offset <= value.len(),
        reads_follow(value.len(), offset, lens),
    ensures
        reads_listing(value, offset, lens) == value.skip(offset as int),
    decreases lens.len(),
{
    let window = value.subrange(offset as int, (offset + lens[0]) as int);
    match next_offset_spec(offset, lens[0], Some(value.len())) {
        Some(next) => {
            lemma_reads_from(value, next, lens.drop_first());
            assert(window + value.skip(next as int) =~= value.skip(offset as int));
        },
        None => {
            assert(window =~= value.skip(offset as int));
        },
    }
}

} // verus!
