//! Items keyed by a string ID: first-match lookup and the stable sort by ID
//! that canonical cells keep their components and links in.
use crate::model::{ComponentSpec, LinkSpec};
use crate::text::{
    chars_lt, chars_of, lemma_seq_lt_asymmetric, lemma_seq_lt_total, lemma_seq_lt_transitive, seq_lt,
    str_eq,
};
use vstd::prelude::*;

verus! {

broadcast use vstd::string::group_string_axioms;

/// An item with a string ID.
pub trait Identified: Sized {
    spec fn key(&self) -> Seq<char>;

    fn id_str(&self) -> (r: &str)
        ensures
            r@ == self.key(),
    ;
}

impl Identified for ComponentSpec {
    open spec fn key(&self) -> Seq<char> {
        self.id@
    }

    fn id_str(&self) -> (r: &str) {
        self.id.as_str()
    }
}

impl Identified for LinkSpec {
    open spec fn key(&self) -> Seq<char> {
        self.id@
    }

    fn id_str(&self) -> (r: &str) {
        self.id.as_str()
    }
}

/// The IDs of a sequence of items.
pub open spec fn keys<T: Identified>(s: Seq<T>) -> Seq<Seq<char>> {
    s.map_values(|x: T| x.key())
}

/// Index of the first item with this ID.
pub open spec fn first_with_id<T: Identified>(s: Seq<T>, id: Seq<char>) -> Option<int>
    decreases s.len(),
{
    if s.len() == 0 {
        None
    } else if s[0].key() == id {
        Some(0)
    } else {
        match first_with_id(s.drop_first(), id) {
            Some(k) => Some(k + 1),
            None => None,
        }
    }
}

pub proof fn lemma_first_with_id_bounds<T: Identified>(s: Seq<T>, id: Seq<char>)
    ensures
        first_with_id(s, id) matches Some(k) ==> 0 <= k < s.len() && s[k].key() == id && forall|
            j: int,
        | 0 <= j < k ==> #[trigger] s[j].key() != id,
        first_with_id(s, id) is None ==> forall|j: int| 0 <= j < s.len() ==> #[trigger] s[j].key()
            != id,
    decreases s.len(),
{
    if s.len() > 0 && s[0].key() != id {
        let t = s.drop_first();
        lemma_first_with_id_bounds(t, id);
        assert forall|j: int| 1 <= j < s.len() implies #[trigger] s[j].key() == t[j - 1].key() by {}
    }
}

proof fn lemma_first_with_id_at<T: Identified>(s: Seq<T>, id: Seq<char>, k: int)
    requires
        0 <= k < s.len(),
        s[k].key() == id,
        forall|j: int| 0 <= j < k ==> #[trigger] s[j].key() != id,
    ensures
        first_with_id(s, id) == Some(k),
    decreases k,
{
    if k > 0 {
        let t = s.drop_first();
        assert forall|j: int| 0 <= j < k - 1 implies #[trigger] t[j].key() != id by {
            assert(t[j] == s[j + 1]);
        }
        lemma_first_with_id_at(t, id, k - 1);
    }
}

proof fn lemma_first_with_id_none<T: Identified>(s: Seq<T>, id: Seq<char>)
    requires
        forall|j: int| 0 <= j < s.len() ==> #[trigger] s[j].key() != id,
    ensures
        first_with_id(s, id) is None,
    decreases s.len(),
{
    if s.len() > 0 {
        let t = s.drop_first();
        assert forall|j: int| 0 <= j < t.len() implies #[trigger] t[j].key() != id by {
            assert(t[j] == s[j + 1]);
        }
        lemma_first_with_id_none(t, id);
    }
}

/// Finds the first item with this ID.
pub fn position_by_id<T: Identified>(items: &Vec<T>, id: &str) -> (r: Option<usize>)
    ensures
        match r {
            Some(k) => first_with_id(items@, id@) == Some(k as int) && k < items@.len(),
            None => first_with_id(items@, id@) is None,
        },
{
    let mut i: usize = 0;
    while i < items.len()
        invariant
            i <= items@.len(),
            forall|j: int| 0 <= j < i ==> #[trigger] items@[j].key() != id@,
        decreases items@.len() - i,
    {
        if str_eq(items[i].id_str(), id) {
            proof {
                lemma_first_with_id_at(items@, id@, i as int);
            }
            return Some(i);
        }
        i = i + 1;
    }
    proof {
        lemma_first_with_id_none(items@, id@);
    }
    None
}

/// Inserts `x` before the first item whose ID is greater than its own.
pub open spec fn insert_by_id<T: Identified>(x: T, s: Seq<T>) -> Seq<T>
    decreases s.len(),
{
    if s.len() == 0 {
        seq![x]
    } else if seq_lt(x.key(), s[0].key()) {
        seq![x] + s
    } else {
        seq![s[0]] + insert_by_id(x, s.drop_first())
    }
}

/// The stable sort by ID: equal IDs keep their relative order.
pub open spec fn sort_by_id<T: Identified>(s: Seq<T>) -> Seq<T>
    decreases s.len(),
{
    if s.len() == 0 {
        Seq::<T>::empty()
    } else {
        insert_by_id(s.last(), sort_by_id(s.drop_last()))
    }
}

proof fn lemma_insert_by_id_at<T: Identified>(x: T, s: Seq<T>, k: int)
    requires
        0 <= k <= s.len(),
        forall|j: int| 0 <= j < k ==> !seq_lt(x.key(), #[trigger] s[j].key()),
        k < s.len() ==> seq_lt(x.key(), s[k].key()),
    ensures
        insert_by_id(x, s) == s.take(k) + seq![x] + s.skip(k),
    decreases s.len(),
{
    if s.len() == 0 {
        assert(s.take(k) + seq![x] + s.skip(k) =~= seq![x]);
    } else if k == 0 {
        assert(s.take(0) + seq![x] + s.skip(0) =~= seq![x] + s);
    } else {
        assert(!seq_lt(x.key(), s[0].key()));
        let t = s.drop_first();
        assert forall|j: int| 0 <= j < k - 1 implies !seq_lt(x.key(), #[trigger] t[j].key()) by {
            assert(t[j] == s[j + 1]);
        }
        lemma_insert_by_id_at(x, t, k - 1);
        assert(seq![s[0]] + (t.take(k - 1) + seq![x] + t.skip(k - 1)) =~= s.take(k) + seq![x]
            + s.skip(k));
    }
}

/// Sorts items by ID, keeping equal IDs in their input order.
pub fn sort_by_id_exec<T: Identified>(items: Vec<T>) -> (r: Vec<T>)
    ensures
        r@ == sort_by_id(items@),
{
    let ghost orig = items@;
    let n = items.len();
    let mut rest = items;
    let mut r: Vec<T> = Vec::new();
    let mut i: usize = 0;
    assert(orig.take(0) =~= Seq::<T>::empty());
    assert(orig.skip(0) =~= orig);
    while rest.len() > 0
        invariant
            i <= orig.len(),
            orig.len() == n,
            rest@ == orig.skip(i as int),
            r@ == sort_by_id(orig.take(i as int)),
        decreases rest@.len(),
    {
        let x = rest.remove(0);
        let xk = chars_of(x.id_str());
        let mut k: usize = 0;
        while k < r.len()
            invariant
                k <= r@.len(),
                xk@ == x.key(),
                forall|j: int| 0 <= j < k ==> !seq_lt(x.key(), #[trigger] r@[j].key()),
            ensures
                k <= r@.len(),
                forall|j: int| 0 <= j < k ==> !seq_lt(x.key(), #[trigger] r@[j].key()),
                k < r@.len() ==> seq_lt(x.key(), r@[k as int].key()),
            decreases r@.len() - k,
        {
            let yk = chars_of(r[k].id_str());
            if chars_lt(&xk, &yk) {
                break;
            }
            k = k + 1;
        }
        let ghost before = r@;
        proof {
            lemma_insert_by_id_at(x, before, k as int);
            assert(orig.take(i + 1).drop_last() =~= orig.take(i as int));
            assert(orig.take(i + 1).last() == x);
        }
        r.insert(k, x);
        assert(rest@ =~= orig.skip(i + 1));
        i = i + 1;
    }
    assert(orig.take(i as int) =~= orig);
    r
}

/// The IDs of a sorted sequence never decrease.
pub open spec fn sorted_by_id<T: Identified>(s: Seq<T>) -> bool {
    forall|i: int, j: int| 0 <= i < j < s.len() ==> !seq_lt(#[trigger] s[j].key(), #[trigger] s[i].key())
}

proof fn lemma_insert_by_id_sorted<T: Identified>(x: T, s: Seq<T>)
    requires
        sorted_by_id(s),
    ensures
        sorted_by_id(insert_by_id(x, s)),
        insert_by_id(x, s).to_multiset() =~= s.to_multiset().insert(x),
        insert_by_id(x, s).len() == s.len() + 1,
        forall|i: int|
            0 <= i < insert_by_id(x, s).len() ==> (#[trigger] insert_by_id(x, s)[i] == x || s.contains(
                insert_by_id(x, s)[i],
            )),
    decreases s.len(),
{
    broadcast use vstd::seq_lib::group_to_multiset_ensures;
    broadcast use vstd::multiset::group_multiset_axioms;

    let r = insert_by_id(x, s);
    if s.len() == 0 {
        assert(r =~= seq![x]);
        assert(seq![x] =~= Seq::<T>::empty().push(x));
    } else if seq_lt(x.key(), s[0].key()) {
        assert(r == seq![x] + s);
        assert forall|i: int, j: int| 0 <= i < j < r.len() implies !seq_lt(
            #[trigger] r[j].key(),
            #[trigger] r[i].key(),
        ) by {
            if i == 0 {
                assert(r[j] == s[j - 1]);
                if j - 1 > 0 {
                    assert(!seq_lt(s[j - 1].key(), s[0].key()));
                    if seq_lt(s[j - 1].key(), x.key()) {
                        lemma_seq_lt_transitive(s[j - 1].key(), x.key(), s[0].key());
                    }
                } else {
                    lemma_seq_lt_asymmetric(x.key(), s[0].key());
                }
            } else {
                assert(r[i] == s[i - 1] && r[j] == s[j - 1]);
            }
        }
        vstd::seq_lib::lemma_multiset_commutative(seq![x], s);
        assert(seq![x] =~= Seq::<T>::empty().push(x));
        assert forall|i: int| 0 <= i < r.len() implies (#[trigger] r[i] == x || s.contains(r[i])) by {
            if i > 0 {
                assert(r[i] == s[i - 1]);
            }
        }
    } else {
        let t = s.drop_first();
        assert forall|i: int, j: int| 0 <= i < j < t.len() implies !seq_lt(
            #[trigger] t[j].key(),
            #[trigger] t[i].key(),
        ) by {
            assert(t[i] == s[i + 1] && t[j] == s[j + 1]);
        }
        lemma_insert_by_id_sorted(x, t);
        let u = insert_by_id(x, t);
        assert(r == seq![s[0]] + u);
        assert forall|i: int, j: int| 0 <= i < j < r.len() implies !seq_lt(
            #[trigger] r[j].key(),
            #[trigger] r[i].key(),
        ) by {
            if i == 0 {
                assert(r[j] == u[j - 1]);
                if u[j - 1] != x {
                    assert(t.contains(u[j - 1]));
                    let k = choose|k: int| 0 <= k < t.len() && t[k] == u[j - 1];
                    assert(t[k] == s[k + 1]);
                }
            } else {
                assert(r[i] == u[i - 1] && r[j] == u[j - 1]);
            }
        }
        assert forall|i: int| 0 <= i < r.len() implies (#[trigger] r[i] == x || s.contains(r[i])) by {
            if i > 0 {
                assert(r[i] == u[i - 1]);
                if u[i - 1] != x {
                    assert(t.contains(u[i - 1]));
                    let k = choose|k: int| 0 <= k < t.len() && t[k] == u[i - 1];
                    assert(s[k + 1] == t[k]);
                }
            } else {
                assert(s[0] == r[0]);
            }
        }
        vstd::seq_lib::lemma_multiset_commutative(seq![s[0]], u);
        vstd::seq_lib::lemma_multiset_commutative(seq![s[0]], t);
        assert(s =~= seq![s[0]] + t);
        assert(seq![s[0]] =~= Seq::<T>::empty().push(s[0]));
    }
}

/// Sorting by ID yields IDs in order and keeps exactly the same items.
pub proof fn lemma_sort_by_id_sorted_permutation<T: Identified>(s: Seq<T>)
    ensures
        sorted_by_id(sort_by_id(s)),
        sort_by_id(s).to_multiset() =~= s.to_multiset(),
        sort_by_id(s).len() == s.len(),
    decreases s.len(),
{
    broadcast use vstd::seq_lib::group_to_multiset_ensures;

    if s.len() > 0 {
        lemma_sort_by_id_sorted_permutation(s.drop_last());
        lemma_insert_by_id_sorted(s.last(), sort_by_id(s.drop_last()));
        assert(s =~= s.drop_last().push(s.last()));
    }
}

/// No two items share an ID.
pub open spec fn distinct_keys<T: Identified>(s: Seq<T>) -> bool {
    forall|i: int, j: int| 0 <= i < j < s.len() ==> #[trigger] s[i].key() != #[trigger] s[j].key()
}

/// Reordering items with distinct IDs keeps their IDs distinct.
proof fn lemma_distinct_keys_reordered<T: Identified>(a: Seq<T>, b: Seq<T>)
    requires
        a.to_multiset() == b.to_multiset(),
        distinct_keys(a),
    ensures
        distinct_keys(b),
{
    broadcast use vstd::seq_lib::group_to_multiset_ensures;

    assert(a.no_duplicates()) by {
        assert forall|i: int, j: int| 0 <= i < a.len() && 0 <= j < a.len() && i != j implies a[i] != a[j] by {
            if i < j {
                assert(a[i].key() != a[j].key());
            } else {
                assert(a[j].key() != a[i].key());
            }
        }
    }
    a.lemma_multiset_has_no_duplicates();
    b.lemma_multiset_has_no_duplicates_conv();
    assert forall|i: int, j: int| 0 <= i < j < b.len() implies #[trigger] b[i].key() != #[trigger] b[j].key() by {
        if b[i].key() == b[j].key() {
            assert(b[i] != b[j]);
            assert(b.contains(b[i]));
            assert(b.contains(b[j]));
            assert(b.to_multiset().count(b[i]) > 0);
            assert(b.to_multiset().count(b[j]) > 0);
            assert(a.contains(b[i]));
            assert(a.contains(b[j]));
            let p = choose|p: int| 0 <= p < a.len() && a[p] == b[i];
            let q = choose|q: int| 0 <= q < a.len() && a[q] == b[j];
            if p < q {
                assert(a[p].key() != a[q].key());
            } else {
                assert(a[q].key() != a[p].key());
            }
        }
    }
}

/// Two sequences sorted by ID that hold the same items, with distinct IDs, are equal.
proof fn lemma_sorted_reordered_equal<T: Identified>(a: Seq<T>, b: Seq<T>)
    requires
        sorted_by_id(a),
        sorted_by_id(b),
        a.to_multiset() == b.to_multiset(),
        distinct_keys(a),
        distinct_keys(b),
    ensures
        a == b,
    decreases a.len(),
{
    broadcast use vstd::seq_lib::group_to_multiset_ensures;

    assert(a.len() == a.to_multiset().len());
    assert(b.len() == b.to_multiset().len());
    if a.len() == 0 {
        assert(a =~= b);
    } else {
        assert(a.contains(a[0]));
        assert(a.to_multiset().count(a[0]) > 0);
        assert(b.contains(a[0]));
        let j = choose|j: int| 0 <= j < b.len() && b[j] == a[0];
        assert(b.contains(b[0]));
        assert(b.to_multiset().count(b[0]) > 0);
        assert(a.contains(b[0]));
        let i = choose|i: int| 0 <= i < a.len() && a[i] == b[0];
        if a[0].key() != b[0].key() {
            lemma_seq_lt_total(a[0].key(), b[0].key());
            if i > 0 {
                assert(!seq_lt(a[i].key(), a[0].key()));
            }
            if j > 0 {
                assert(!seq_lt(b[j].key(), b[0].key()));
            }
        }
        if i > 0 {
            assert(a[0].key() != a[i].key());
        }
        assert(a[0] == b[0]);
        let ta = a.drop_first();
        let tb = b.drop_first();
        assert(a.remove(0) =~= ta);
        assert(b.remove(0) =~= tb);
        assert(ta.to_multiset() == tb.to_multiset());
        assert(sorted_by_id(ta)) by {
            assert forall|x: int, y: int| 0 <= x < y < ta.len() implies !seq_lt(
                #[trigger] ta[y].key(),
                #[trigger] ta[x].key(),
            ) by {
                assert(ta[y] == a[y + 1] && ta[x] == a[x + 1]);
            }
        }
        assert(sorted_by_id(tb)) by {
            assert forall|x: int, y: int| 0 <= x < y < tb.len() implies !seq_lt(
                #[trigger] tb[y].key(),
                #[trigger] tb[x].key(),
            ) by {
                assert(tb[y] == b[y + 1] && tb[x] == b[x + 1]);
            }
        }
        assert(distinct_keys(ta)) by {
            assert forall|x: int, y: int| 0 <= x < y < ta.len() implies #[trigger] ta[x].key() != #[trigger] ta[y].key() by {
                assert(ta[y] == a[y + 1] && ta[x] == a[x + 1]);
            }
        }
        assert(distinct_keys(tb)) by {
            assert forall|x: int, y: int| 0 <= x < y < tb.len() implies #[trigger] tb[x].key() != #[trigger] tb[y].key() by {
                assert(tb[y] == b[y + 1] && tb[x] == b[x + 1]);
            }
        }
        lemma_sorted_reordered_equal(ta, tb);
        assert(a =~= b) by {
            assert forall|k: int| 0 <= k < a.len() implies a[k] == b[k] by {
                if k > 0 {
                    assert(a[k] == ta[k - 1] && b[k] == tb[k - 1]);
                }
            }
        }
    }
}

/// Sorting by ID forgets the order of items with distinct IDs: two sequences
/// that hold the same such items sort to the same sequence.
pub proof fn lemma_sort_by_id_ignores_order<T: Identified>(a: Seq<T>, b: Seq<T>)
    requires
        a.to_multiset() == b.to_multiset(),
        distinct_keys(a),
    ensures
        sort_by_id(a) == sort_by_id(b),
{
    lemma_sort_by_id_sorted_permutation(a);
    lemma_sort_by_id_sorted_permutation(b);
    lemma_distinct_keys_reordered(a, sort_by_id(a));
    lemma_distinct_keys_reordered(a, sort_by_id(b));
    lemma_sorted_reordered_equal(sort_by_id(a), sort_by_id(b));
}

/// Sorting by ID and then keeping what a predicate selects keeps exactly the
/// selected items: each kept item is one of the inputs and is selected, and
/// every selected input is kept.
pub proof fn lemma_sorted_selection<T: Identified>(s: Seq<T>, pred: spec_fn(T) -> bool)
    ensures
        forall|k: int|
            0 <= k < sort_by_id(s).filter(pred).len() ==> pred(#[trigger] sort_by_id(s).filter(pred)[k])
                && s.contains(sort_by_id(s).filter(pred)[k]),
        forall|i: int| 0 <= i < s.len() && pred(#[trigger] s[i]) ==> sort_by_id(s).filter(pred).contains(s[i]),
{
    broadcast use vstd::seq_lib::group_to_multiset_ensures;

    let sorted = sort_by_id(s);
    let kept = sorted.filter(pred);
    lemma_sort_by_id_sorted_permutation(s);
    assert forall|k: int| 0 <= k < kept.len() implies pred(#[trigger] kept[k]) && s.contains(kept[k]) by {
        sorted.lemma_filter_pred(pred, k);
        assert(kept.contains(kept[k]));
        sorted.lemma_filter_contains_rev(pred, kept[k]);
        assert(sorted.to_multiset().count(kept[k]) > 0);
        assert(s.to_multiset().count(kept[k]) > 0);
    }
    assert forall|i: int| 0 <= i < s.len() && pred(#[trigger] s[i]) implies kept.contains(s[i]) by {
        assert(s.contains(s[i]));
        assert(s.to_multiset().count(s[i]) > 0);
        assert(sorted.to_multiset().count(s[i]) > 0);
        assert(sorted.contains(s[i]));
        let j = choose|j: int| 0 <= j < sorted.len() && sorted[j] == s[i];
        sorted.lemma_filter_contains(pred, j);
    }
}

} // verus!
