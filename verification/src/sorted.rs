//! Sequences kept in key order. Canonical values hold their items in a `Vec`
//! that is sorted by a byte key; this module holds what sorted means, and the
//! verified operations that sort, search, add and take away.

use crate::text::bytes_less;
use crate::text::bytes_lt;
use crate::text::lemma_bytes_lt_orders;
use crate::text::lemma_encoding_injective;
use crate::text::bytes_equal;
use vstd::prelude::*;
use vstd::string::StringSliceAdditionalSpecFns;
use vstd::utf8::encode_utf8;

verus! {

/// An item that is ordered, and found again, by a key.
pub trait Keyed: DeepView + Sized {
    /// What the items are ordered by.
    type Key;

    /// The key of an item, from its deep view.
    spec fn key(item: Self::V) -> Self::Key;

    /// Whether the key `a` comes strictly before the key `b`.
    spec fn before(a: Self::Key, b: Self::Key) -> bool;

    /// The keys are in a strict total order.
    proof fn keys_are_ordered(a: Self::Key, b: Self::Key, c: Self::Key)
        ensures
            !Self::before(a, a),
            Self::before(a, b) && Self::before(b, c) ==> Self::before(a, c),
            a == b || Self::before(a, b) || Self::before(b, a),
    ;

    /// Whether this item's key comes strictly before the other's.
    fn key_less(&self, other: &Self) -> (r: bool)
        ensures
            r == Self::before(Self::key(self.deep_view()), Self::key(other.deep_view())),
    ;

    /// Whether the two items have the same key.
    fn key_equal(&self, other: &Self) -> (r: bool)
        ensures
            r == (Self::key(self.deep_view()) == Self::key(other.deep_view())),
    ;
}

/// A text is ordered by its bytes, first to last. A path is a text here:
/// paths come in the order of their texts, not of their components, so
/// that `a-b/c` comes before `a/b`, and `a//b` and `a/b` are two paths.
impl Keyed for String {
    type Key = Seq<u8>;

    open spec fn key(item: Seq<char>) -> Seq<u8> {
        encode_utf8(item)
    }

    open spec fn before(a: Seq<u8>, b: Seq<u8>) -> bool {
        bytes_lt(a, b)
    }

    proof fn keys_are_ordered(a: Seq<u8>, b: Seq<u8>, c: Seq<u8>) {
        lemma_bytes_lt_orders(a, b, c);
    }

    fn key_less(&self, other: &Self) -> (r: bool) {
        bytes_less(self.as_str().as_bytes(), other.as_str().as_bytes())
    }

    fn key_equal(&self, other: &Self) -> (r: bool) {
        bytes_equal(self.as_str().as_bytes(), other.as_str().as_bytes())
    }
}

/// Whether `a` comes strictly before `b` by key.
pub open spec fn key_lt<T: Keyed>(a: T::V, b: T::V) -> bool {
    T::before(T::key(a), T::key(b))
}

/// No key comes before itself.
pub proof fn lemma_key_irreflexive<T: Keyed>(a: T::Key)
    ensures
        !T::before(a, a),
{
    T::keys_are_ordered(a, a, a);
}

/// The order of the keys is transitive.
pub proof fn lemma_key_transitive<T: Keyed>(a: T::Key, b: T::Key, c: T::Key)
    requires
        T::before(a, b),
        T::before(b, c),
    ensures
        T::before(a, c),
{
    T::keys_are_ordered(a, b, c);
}

/// No two keys come before each other.
pub proof fn lemma_key_asymmetric<T: Keyed>(a: T::Key, b: T::Key)
    requires
        T::before(a, b),
    ensures
        !T::before(b, a),
{
    T::keys_are_ordered(a, b, a);
}

/// Of two different keys one comes before the other.
pub proof fn lemma_key_total<T: Keyed>(a: T::Key, b: T::Key)
    ensures
        a == b || T::before(a, b) || T::before(b, a),
{
    T::keys_are_ordered(a, b, a);
}

/// The keys never decrease along `s`.
pub open spec fn ordered<T: Keyed>(s: Seq<T::V>) -> bool {
    forall|i: int, j: int| #![trigger s[i], s[j]] 0 <= i < j < s.len() ==> !key_lt::<T>(s[j], s[i])
}

/// The keys strictly increase along `s`: sorted, and no key occurs twice.
pub open spec fn strictly_ordered<T: Keyed>(s: Seq<T::V>) -> bool {
    forall|i: int, j: int| #![trigger s[i], s[j]] 0 <= i < j < s.len() ==> key_lt::<T>(s[i], s[j])
}

/// Some item of `s` has the key `k`.
pub open spec fn has_key<T: Keyed>(s: Seq<T::V>, k: T::Key) -> bool {
    exists|i: int| 0 <= i < s.len() && #[trigger] T::key(s[i]) == k
}

/// `s` with `x` put behind the last item whose key is not greater than that
/// of `x`: one step of a stable insertion sort.
pub open spec fn insert_ordered<T: Keyed>(s: Seq<T::V>, x: T::V) -> Seq<T::V>
    decreases s.len(),
{
    if s.len() > 0 && key_lt::<T>(x, s.last()) {
        insert_ordered::<T>(s.drop_last(), x).push(s.last())
    } else {
        s.push(x)
    }
}

/// The stable sort of `s` by key: items with equal keys keep their order.
pub open spec fn sort<T: Keyed>(s: Seq<T::V>) -> Seq<T::V>
    decreases s.len(),
{
    if s.len() == 0 {
        s
    } else {
        insert_ordered::<T>(sort::<T>(s.drop_last()), s.last())
    }
}

/// `s` as a set in key order, with `x` added: where an item of `s` has the
/// key of `x`, `x` takes its place.
pub open spec fn put<T: Keyed>(s: Seq<T::V>, x: T::V) -> Seq<T::V>
    decreases s.len(),
{
    if s.len() == 0 {
        seq![x]
    } else if T::key(s.last()) == T::key(x) {
        s.drop_last().push(x)
    } else if key_lt::<T>(x, s.last()) {
        put::<T>(s.drop_last(), x).push(s.last())
    } else {
        s.push(x)
    }
}

/// `s` with every item of `xs` added by `put`, first to last.
pub open spec fn put_all<T: Keyed>(s: Seq<T::V>, xs: Seq<T::V>) -> Seq<T::V>
    decreases xs.len(),
{
    if xs.len() == 0 {
        s
    } else {
        put::<T>(put_all::<T>(s, xs.drop_last()), xs.last())
    }
}

/// `s` without the first item that has the key `k`.
pub open spec fn without<T: Keyed>(s: Seq<T::V>, k: T::Key) -> Seq<T::V>
    decreases s.len(),
{
    if s.len() == 0 {
        s
    } else if T::key(s.last()) == k && !has_key::<T>(s.drop_last(), k) {
        s.drop_last()
    } else {
        without::<T>(s.drop_last(), k).push(s.last())
    }
}

/// `s` without the items whose keys the items of `xs` have.
pub open spec fn without_all<T: Keyed>(s: Seq<T::V>, xs: Seq<T::V>) -> Seq<T::V>
    decreases xs.len(),
{
    if xs.len() == 0 {
        s
    } else {
        without::<T>(without_all::<T>(s, xs.drop_last()), T::key(xs.last()))
    }
}

/// A strictly ordered sequence is ordered.
pub proof fn lemma_strict_is_ordered<T: Keyed>(s: Seq<T::V>)
    requires
        strictly_ordered::<T>(s),
    ensures
        ordered::<T>(s),
{
    assert forall|i: int, j: int| 0 <= i < j < s.len() implies !key_lt::<T>(s[j], s[i]) by {
        lemma_key_asymmetric::<T>(T::key(s[i]), T::key(s[j]));
    }
}

/// What `insert_ordered` holds: the items of `s` and `x`; and it keeps order.
pub proof fn lemma_insert_ordered<T: Keyed>(s: Seq<T::V>, x: T::V)
    ensures
        insert_ordered::<T>(s, x).len() == s.len() + 1,
        insert_ordered::<T>(s, x).to_multiset() == s.to_multiset().insert(x),
        ordered::<T>(s) ==> ordered::<T>(insert_ordered::<T>(s, x)),
        ordered::<T>(s) && s.len() > 0 && !key_lt::<T>(x, s.last()) ==> insert_ordered::<T>(s, x)
            == s.push(x),
        forall|y: T::V| #[trigger]
            insert_ordered::<T>(s, x).contains(y) <==> (y == x || s.contains(y)),
    decreases s.len(),
{
    broadcast use vstd::seq_lib::group_to_multiset_ensures;

    let r = insert_ordered::<T>(s, x);
    if s.len() > 0 && key_lt::<T>(x, s.last()) {
        let t = s.drop_last();
        let rt = insert_ordered::<T>(t, x);
        lemma_insert_ordered::<T>(t, x);
        assert(s == t.push(s.last()));
        assert(r == rt.push(s.last()));
        assert(r.to_multiset() == s.to_multiset().insert(x)) by {
            assert(rt.push(s.last()).to_multiset() =~= rt.to_multiset().insert(s.last()));
            assert(t.push(s.last()).to_multiset() =~= t.to_multiset().insert(s.last()));
            assert(rt.to_multiset().insert(s.last()) =~= t.to_multiset().insert(s.last()).insert(
                x,
            ));
        }
        assert forall|y: T::V| #[trigger] r.contains(y) <==> (y == x || s.contains(y)) by {
            if r.contains(y) {
                let i = choose|i: int| 0 <= i < r.len() && r[i] == y;
                if i < rt.len() {
                    assert(rt[i] == y);
                    assert(rt.contains(y));
                    if y != x {
                        assert(t.contains(y));
                        let k = choose|k: int| 0 <= k < t.len() && t[k] == y;
                        assert(s[k] == y);
                    }
                } else {
                    assert(s[s.len() - 1] == y);
                }
            }
            if y == x {
                assert(rt.contains(x));
                let i = choose|i: int| 0 <= i < rt.len() && rt[i] == x;
                assert(r[i] == x);
            }
            if s.contains(y) {
                let k = choose|k: int| 0 <= k < s.len() && s[k] == y;
                if k < t.len() {
                    assert(t[k] == y);
                    assert(t.contains(y));
                    assert(rt.contains(y));
                    let i = choose|i: int| 0 <= i < rt.len() && rt[i] == y;
                    assert(r[i] == y);
                } else {
                    assert(r[r.len() - 1] == y);
                }
            }
        }
        if ordered::<T>(s) {
            assert(ordered::<T>(t)) by {
                assert forall|i: int, j: int| 0 <= i < j < t.len() implies !key_lt::<T>(
                    t[j],
                    t[i],
                ) by {
                    assert(t[i] == s[i] && t[j] == s[j]);
                }
            }
            assert forall|i: int, j: int| 0 <= i < j < r.len() implies !key_lt::<T>(
                r[j],
                r[i],
            ) by {
                if j < rt.len() {
                    assert(r[i] == rt[i] && r[j] == rt[j]);
                } else {
                    assert(r[i] == rt[i]);
                    assert(rt.contains(rt[i]));
                    if rt[i] == x {
                        lemma_key_asymmetric::<T>(T::key(x), T::key(s.last()));
                    } else {
                        assert(t.contains(rt[i]));
                        let k = choose|k: int| 0 <= k < t.len() && t[k] == rt[i];
                        assert(s[k] == rt[i]);
                        assert(!key_lt::<T>(s[s.len() - 1], s[k]));
                    }
                }
            }
        }
    } else {
        assert(r == s.push(x));
        assert(s.push(x).to_multiset() =~= s.to_multiset().insert(x));
        assert forall|y: T::V| #[trigger] r.contains(y) <==> (y == x || s.contains(y)) by {
            if r.contains(y) {
                let i = choose|i: int| 0 <= i < r.len() && r[i] == y;
                if i < s.len() {
                    assert(s[i] == y);
                }
            }
            if y == x {
                assert(r[r.len() - 1] == x);
            }
            if s.contains(y) {
                let k = choose|k: int| 0 <= k < s.len() && s[k] == y;
                assert(r[k] == y);
            }
        }
        if ordered::<T>(s) {
            assert forall|i: int, j: int| 0 <= i < j < r.len() implies !key_lt::<T>(
                r[j],
                r[i],
            ) by {
                if j < s.len() {
                    assert(r[i] == s[i] && r[j] == s[j]);
                } else if s.len() > 0 {
                    assert(r[i] == s[i]);
                    if i < s.len() - 1 {
                        assert(!key_lt::<T>(s[s.len() - 1], s[i]));
                        if key_lt::<T>(x, s[i]) {
                            lemma_key_total::<T>(T::key(s.last()), T::key(s[i]));
                            if T::key(s.last()) == T::key(s[i]) {
                            } else {
                                lemma_key_transitive::<T>(
                                    T::key(x),
                                    T::key(s[i]),
                                    T::key(s.last()),
                                );
                            }
                        }
                    }
                }
            }
        }
    }
}

/// The stable sort holds the items of `s`, each as often, and is ordered.
pub proof fn lemma_sort<T: Keyed>(s: Seq<T::V>)
    ensures
        sort::<T>(s).len() == s.len(),
        sort::<T>(s).to_multiset() == s.to_multiset(),
        ordered::<T>(sort::<T>(s)),
        forall|y: T::V| #[trigger] sort::<T>(s).contains(y) <==> s.contains(y),
    decreases s.len(),
{
    broadcast use vstd::seq_lib::group_to_multiset_ensures;

    if s.len() > 0 {
        let t = s.drop_last();
        lemma_sort::<T>(t);
        lemma_insert_ordered::<T>(sort::<T>(t), s.last());
        assert(s == t.push(s.last()));
        assert(t.push(s.last()).to_multiset() =~= t.to_multiset().insert(s.last()));
        assert forall|y: T::V| #[trigger] sort::<T>(s).contains(y) <==> s.contains(y) by {
            if s.contains(y) {
                let k = choose|k: int| 0 <= k < s.len() && s[k] == y;
                if k < t.len() {
                    assert(t[k] == y);
                    assert(t.contains(y));
                }
            }
            if t.contains(y) {
                let k = choose|k: int| 0 <= k < t.len() && t[k] == y;
                assert(s[k] == y);
            }
            if y == s.last() {
                assert(s[s.len() - 1] == y);
            }
        }
    }
}

/// Sorting leaves an ordered sequence as it is.
pub proof fn lemma_sort_of_ordered<T: Keyed>(s: Seq<T::V>)
    requires
        ordered::<T>(s),
    ensures
        sort::<T>(s) == s,
    decreases s.len(),
{
    if s.len() > 0 {
        let t = s.drop_last();
        assert(ordered::<T>(t)) by {
            assert forall|i: int, j: int| 0 <= i < j < t.len() implies !key_lt::<T>(t[j], t[i]) by {
                assert(t[i] == s[i] && t[j] == s[j]);
            }
        }
        lemma_sort_of_ordered::<T>(t);
        if t.len() > 0 {
            assert(t.last() == s[s.len() - 2]);
            assert(!key_lt::<T>(s[s.len() - 1], s[s.len() - 2]));
        }
        assert(insert_ordered::<T>(t, s.last()) == t.push(s.last()));
        assert(s == t.push(s.last()));
    }
}

/// What `put` holds, and that it keeps strict order.
pub proof fn lemma_put<T: Keyed>(s: Seq<T::V>, x: T::V)
    requires
        strictly_ordered::<T>(s),
    ensures
        strictly_ordered::<T>(put::<T>(s, x)),
        forall|y: T::V| #[trigger]
            put::<T>(s, x).contains(y) <==> (y == x || (s.contains(y) && T::key(y) != T::key(x))),
        has_key::<T>(s, T::key(x)) ==> put::<T>(s, x).len() == s.len(),
        !has_key::<T>(s, T::key(x)) ==> put::<T>(s, x).len() == s.len() + 1,
        s.contains(x) ==> put::<T>(s, x) == s,
    decreases s.len(),
{
    let r = put::<T>(s, x);
    if s.len() == 0 {
        assert(r[0] == x);
        assert forall|y: T::V| #[trigger] r.contains(y) <==> (y == x || (s.contains(y) && T::key(y)
            != T::key(x))) by {
            if r.contains(y) {
                let i = choose|i: int| 0 <= i < r.len() && r[i] == y;
            }
        }
    } else {
        let t = s.drop_last();
        let l = s.last();
        assert(s == t.push(l));
        assert(strictly_ordered::<T>(t)) by {
            assert forall|i: int, j: int| 0 <= i < j < t.len() implies key_lt::<T>(t[i], t[j]) by {
                assert(t[i] == s[i] && t[j] == s[j]);
            }
        }
        assert forall|k: int| 0 <= k < t.len() implies key_lt::<T>(#[trigger] t[k], l) by {
            assert(t[k] == s[k] && l == s[s.len() - 1]);
        }
        if T::key(l) == T::key(x) {
            assert(r == t.push(x));
            assert(T::key(s[s.len() - 1]) == T::key(x));
            assert forall|k: int| 0 <= k < t.len() implies T::key(#[trigger] t[k]) != T::key(x) by {
                lemma_key_irreflexive::<T>(T::key(x));
            }
            assert forall|i: int, j: int| 0 <= i < j < r.len() implies key_lt::<T>(r[i], r[j]) by {
                if j < t.len() {
                    assert(r[i] == t[i] && r[j] == t[j]);
                } else {
                    assert(r[i] == t[i]);
                }
            }
            assert forall|y: T::V| #[trigger] r.contains(y) <==> (y == x || (s.contains(y)
                && T::key(y) != T::key(x))) by {
                if r.contains(y) {
                    let i = choose|i: int| 0 <= i < r.len() && r[i] == y;
                    if i < t.len() {
                        assert(s[i] == y);
                        assert(t[i] == y);
                    }
                }
                if y == x {
                    assert(r[r.len() - 1] == x);
                }
                if s.contains(y) && T::key(y) != T::key(x) {
                    let k = choose|k: int| 0 <= k < s.len() && s[k] == y;
                    assert(k < t.len());
                    assert(r[k] == y);
                }
            }
            if s.contains(x) {
                let k = choose|k: int| 0 <= k < s.len() && s[k] == x;
                if k < t.len() {
                    assert(T::key(t[k]) != T::key(x));
                }
                assert(r =~= s);
            }
        } else if key_lt::<T>(x, l) {
            let rt = put::<T>(t, x);
            lemma_put::<T>(t, x);
            assert(r == rt.push(l));
            assert forall|i: int, j: int| 0 <= i < j < r.len() implies key_lt::<T>(r[i], r[j]) by {
                if j < rt.len() {
                    assert(r[i] == rt[i] && r[j] == rt[j]);
                } else {
                    assert(r[i] == rt[i]);
                    assert(rt.contains(rt[i]));
                    if rt[i] != x {
                        let k = choose|k: int| 0 <= k < t.len() && t[k] == rt[i];
                    }
                }
            }
            assert(has_key::<T>(s, T::key(x)) <==> has_key::<T>(t, T::key(x))) by {
                if has_key::<T>(s, T::key(x)) {
                    let i = choose|i: int| 0 <= i < s.len() && #[trigger] T::key(s[i]) == T::key(x);
                    assert(i < t.len());
                    assert(T::key(t[i]) == T::key(x));
                }
                if has_key::<T>(t, T::key(x)) {
                    let i = choose|i: int| 0 <= i < t.len() && #[trigger] T::key(t[i]) == T::key(x);
                    assert(T::key(s[i]) == T::key(x));
                }
            }
            assert forall|y: T::V| #[trigger] r.contains(y) <==> (y == x || (s.contains(y)
                && T::key(y) != T::key(x))) by {
                if r.contains(y) {
                    let i = choose|i: int| 0 <= i < r.len() && r[i] == y;
                    if i < rt.len() {
                        assert(rt[i] == y);
                        assert(rt.contains(y));
                        if y != x {
                            let k = choose|k: int| 0 <= k < t.len() && t[k] == y;
                            assert(s[k] == y);
                        }
                    } else {
                        assert(s[s.len() - 1] == y);
                    }
                }
                if y == x {
                    assert(rt.contains(x));
                    let i = choose|i: int| 0 <= i < rt.len() && rt[i] == x;
                    assert(r[i] == x);
                }
                if s.contains(y) && T::key(y) != T::key(x) {
                    let k = choose|k: int| 0 <= k < s.len() && s[k] == y;
                    if k < t.len() {
                        assert(t[k] == y);
                        assert(t.contains(y));
                        assert(rt.contains(y));
                        let i = choose|i: int| 0 <= i < rt.len() && rt[i] == y;
                        assert(r[i] == y);
                    } else {
                        assert(r[r.len() - 1] == y);
                    }
                }
            }
            if s.contains(x) {
                let k = choose|k: int| 0 <= k < s.len() && s[k] == x;
                assert(k < t.len());
                assert(t[k] == x);
                assert(t.contains(x));
            }
        } else {
            assert(r == s.push(x));
            lemma_key_total::<T>(T::key(l), T::key(x));
            assert(key_lt::<T>(l, x));
            assert forall|k: int| 0 <= k < s.len() implies key_lt::<T>(#[trigger] s[k], x) by {
                if k < t.len() {
                    assert(s[k] == t[k]);
                    lemma_key_transitive::<T>(T::key(t[k]), T::key(l), T::key(x));
                }
            }
            assert forall|i: int, j: int| 0 <= i < j < r.len() implies key_lt::<T>(r[i], r[j]) by {
                if j < s.len() {
                    assert(r[i] == s[i] && r[j] == s[j]);
                } else {
                    assert(r[i] == s[i]);
                }
            }
            assert(!has_key::<T>(s, T::key(x))) by {
                if has_key::<T>(s, T::key(x)) {
                    let i = choose|i: int| 0 <= i < s.len() && #[trigger] T::key(s[i]) == T::key(x);
                    assert(key_lt::<T>(s[i], x));
                    lemma_key_irreflexive::<T>(T::key(x));
                }
            }
            assert forall|y: T::V| #[trigger] r.contains(y) <==> (y == x || (s.contains(y)
                && T::key(y) != T::key(x))) by {
                if r.contains(y) {
                    let i = choose|i: int| 0 <= i < r.len() && r[i] == y;
                    if i < s.len() {
                        assert(s[i] == y);
                        lemma_key_irreflexive::<T>(T::key(x));
                    }
                }
                if y == x {
                    assert(r[r.len() - 1] == x);
                }
                if s.contains(y) {
                    let k = choose|k: int| 0 <= k < s.len() && s[k] == y;
                    assert(r[k] == y);
                }
            }
            if s.contains(x) {
                let k = choose|k: int| 0 <= k < s.len() && s[k] == x;
                assert(key_lt::<T>(s[k], x));
                lemma_key_irreflexive::<T>(T::key(x));
            }
        }
    }
}

/// An item that comes behind every item of a strictly ordered sequence is
/// put at its end, and its key is new.
pub proof fn lemma_put_at_end<T: Keyed>(s: Seq<T::V>, x: T::V)
    requires
        strictly_ordered::<T>(s.push(x)),
    ensures
        put::<T>(s, x) == s.push(x),
        !has_key::<T>(s, T::key(x)),
        strictly_ordered::<T>(s),
{
    let whole = s.push(x);
    assert forall|i: int, j: int| 0 <= i < j < s.len() implies key_lt::<T>(s[i], s[j]) by {
        assert(whole[i] == s[i] && whole[j] == s[j]);
    }
    assert forall|i: int| 0 <= i < s.len() implies key_lt::<T>(#[trigger] s[i], x) by {
        assert(whole[i] == s[i] && whole[s.len() as int] == x);
    }
    if has_key::<T>(s, T::key(x)) {
        let i = choose|i: int| 0 <= i < s.len() && #[trigger] T::key(s[i]) == T::key(x);
        assert(key_lt::<T>(s[i], x));
        lemma_key_irreflexive::<T>(T::key(x));
    }
    if s.len() > 0 {
        assert(key_lt::<T>(s[s.len() - 1], x));
        lemma_key_irreflexive::<T>(T::key(x));
        lemma_key_asymmetric::<T>(T::key(s.last()), T::key(x));
    }
}

/// Adding a sequence item by item keeps strict order.
pub proof fn lemma_put_all<T: Keyed>(s: Seq<T::V>, xs: Seq<T::V>)
    requires
        strictly_ordered::<T>(s),
    ensures
        strictly_ordered::<T>(put_all::<T>(s, xs)),
    decreases xs.len(),
{
    if xs.len() > 0 {
        lemma_put_all::<T>(s, xs.drop_last());
        lemma_put::<T>(put_all::<T>(s, xs.drop_last()), xs.last());
    }
}

/// Taking a key away keeps strict order, and only that key leaves.
pub proof fn lemma_without<T: Keyed>(s: Seq<T::V>, k: T::Key)
    requires
        strictly_ordered::<T>(s),
    ensures
        strictly_ordered::<T>(without::<T>(s, k)),
        forall|y: T::V| #[trigger]
            without::<T>(s, k).contains(y) <==> (s.contains(y) && T::key(y) != k),
        !has_key::<T>(s, k) ==> without::<T>(s, k) == s,
        has_key::<T>(s, k) ==> without::<T>(s, k).len() + 1 == s.len(),
    decreases s.len(),
{
    let r = without::<T>(s, k);
    if s.len() > 0 {
        let t = s.drop_last();
        let l = s.last();
        assert(s == t.push(l));
        assert(strictly_ordered::<T>(t)) by {
            assert forall|i: int, j: int| 0 <= i < j < t.len() implies key_lt::<T>(t[i], t[j]) by {
                assert(t[i] == s[i] && t[j] == s[j]);
            }
        }
        assert forall|i: int| 0 <= i < t.len() implies key_lt::<T>(#[trigger] t[i], l) by {
            assert(t[i] == s[i] && l == s[s.len() - 1]);
        }
        lemma_without::<T>(t, k);
        if T::key(l) == k {
            assert(!has_key::<T>(t, k)) by {
                if has_key::<T>(t, k) {
                    let i = choose|i: int| 0 <= i < t.len() && #[trigger] T::key(t[i]) == k;
                    assert(key_lt::<T>(t[i], l));
                    lemma_key_irreflexive::<T>(k);
                }
            }
            assert(r == t);
            assert(T::key(s[s.len() - 1]) == k);
            assert forall|y: T::V| #[trigger] r.contains(y) <==> (s.contains(y) && T::key(y)
                != k) by {
                if r.contains(y) {
                    let i = choose|i: int| 0 <= i < t.len() && t[i] == y;
                    assert(s[i] == y);
                    assert(T::key(t[i]) != k);
                }
                if s.contains(y) && T::key(y) != k {
                    let i = choose|i: int| 0 <= i < s.len() && s[i] == y;
                    assert(t[i] == y);
                }
            }
        } else {
            let rt = without::<T>(t, k);
            assert(r == rt.push(l));
            assert(has_key::<T>(s, k) <==> has_key::<T>(t, k)) by {
                if has_key::<T>(s, k) {
                    let i = choose|i: int| 0 <= i < s.len() && #[trigger] T::key(s[i]) == k;
                    assert(T::key(t[i]) == k);
                }
                if has_key::<T>(t, k) {
                    let i = choose|i: int| 0 <= i < t.len() && #[trigger] T::key(t[i]) == k;
                    assert(T::key(s[i]) == k);
                }
            }
            assert forall|i: int, j: int| 0 <= i < j < r.len() implies key_lt::<T>(r[i], r[j]) by {
                if j < rt.len() {
                    assert(r[i] == rt[i] && r[j] == rt[j]);
                } else {
                    assert(r[i] == rt[i]);
                    assert(rt.contains(rt[i]));
                    let m = choose|m: int| 0 <= m < t.len() && t[m] == rt[i];
                }
            }
            assert forall|y: T::V| #[trigger] r.contains(y) <==> (s.contains(y) && T::key(y)
                != k) by {
                if r.contains(y) {
                    let i = choose|i: int| 0 <= i < r.len() && r[i] == y;
                    if i < rt.len() {
                        assert(rt[i] == y);
                        assert(rt.contains(y));
                        let m = choose|m: int| 0 <= m < t.len() && t[m] == y;
                        assert(s[m] == y);
                    } else {
                        assert(s[s.len() - 1] == y);
                    }
                }
                if s.contains(y) && T::key(y) != k {
                    let i = choose|i: int| 0 <= i < s.len() && s[i] == y;
                    if i < t.len() {
                        assert(t[i] == y);
                        assert(t.contains(y));
                        assert(rt.contains(y));
                        let m = choose|m: int| 0 <= m < rt.len() && rt[m] == y;
                        assert(r[m] == y);
                    } else {
                        assert(r[r.len() - 1] == y);
                    }
                }
            }
            if !has_key::<T>(s, k) {
                assert(r == s);
            }
        }
    }
}

/// Taking the keys of a sequence away keeps strict order.
pub proof fn lemma_without_all<T: Keyed>(s: Seq<T::V>, xs: Seq<T::V>)
    requires
        strictly_ordered::<T>(s),
    ensures
        strictly_ordered::<T>(without_all::<T>(s, xs)),
    decreases xs.len(),
{
    if xs.len() > 0 {
        lemma_without_all::<T>(s, xs.drop_last());
        lemma_without::<T>(without_all::<T>(s, xs.drop_last()), T::key(xs.last()));
    }
}

/// Texts with the same key are the same text.
pub proof fn lemma_text_key(a: Seq<char>, b: Seq<char>)
    ensures
        <String as Keyed>::key(a) == <String as Keyed>::key(b) <==> a == b,
{
    if <String as Keyed>::key(a) == <String as Keyed>::key(b) {
        lemma_encoding_injective(a, b);
    }
}

/// A text is among the texts exactly where its key is.
pub proof fn lemma_text_has_key(s: Seq<Seq<char>>, x: Seq<char>)
    ensures
        has_key::<String>(s, <String as Keyed>::key(x)) <==> s.contains(x),
{
    if has_key::<String>(s, <String as Keyed>::key(x)) {
        let i = choose|i: int|
            0 <= i < s.len() && #[trigger] <String as Keyed>::key(s[i]) == <String as Keyed>::key(
                x,
            );
        lemma_text_key(s[i], x);
        assert(s[i] == x);
    }
    if s.contains(x) {
        let i = choose|i: int| 0 <= i < s.len() && s[i] == x;
        assert(<String as Keyed>::key(s[i]) == <String as Keyed>::key(x));
    }
}

/// Texts in strict order are a set: `put` adds a text and keeps the others.
pub proof fn lemma_put_text(s: Seq<Seq<char>>, x: Seq<char>)
    requires
        strictly_ordered::<String>(s),
    ensures
        strictly_ordered::<String>(put::<String>(s, x)),
        forall|y: Seq<char>| #[trigger] put::<String>(s, x).contains(y) <==> (y == x || s.contains(y)),
        s.contains(x) ==> put::<String>(s, x) == s,
        !s.contains(x) ==> put::<String>(s, x).len() == s.len() + 1,
{
    lemma_put::<String>(s, x);
    lemma_text_has_key(s, x);
    assert forall|y: Seq<char>| #[trigger]
        put::<String>(s, x).contains(y) <==> (y == x || s.contains(y)) by {
        lemma_text_key(y, x);
    }
}

/// Adding texts one by one adds exactly those texts.
pub proof fn lemma_put_all_text(s: Seq<Seq<char>>, xs: Seq<Seq<char>>)
    requires
        strictly_ordered::<String>(s),
    ensures
        strictly_ordered::<String>(put_all::<String>(s, xs)),
        forall|y: Seq<char>| #[trigger]
            put_all::<String>(s, xs).contains(y) <==> (s.contains(y) || xs.contains(y)),
    decreases xs.len(),
{
    if xs.len() > 0 {
        let t = xs.drop_last();
        lemma_put_all_text(s, t);
        lemma_put_text(put_all::<String>(s, t), xs.last());
        assert forall|y: Seq<char>| #[trigger]
            put_all::<String>(s, xs).contains(y) <==> (s.contains(y) || xs.contains(y)) by {
            if xs.contains(y) {
                let i = choose|i: int| 0 <= i < xs.len() && xs[i] == y;
                if i < t.len() {
                    assert(t[i] == y);
                    assert(t.contains(y));
                }
            }
            if t.contains(y) {
                let i = choose|i: int| 0 <= i < t.len() && t[i] == y;
                assert(xs[i] == y);
            }
            if y == xs.last() {
                assert(xs[xs.len() - 1] == y);
            }
        }
    } else {
        assert forall|y: Seq<char>| #[trigger]
            put_all::<String>(s, xs).contains(y) <==> (s.contains(y) || xs.contains(y)) by {
            if xs.contains(y) {
                let i = choose|i: int| 0 <= i < xs.len() && xs[i] == y;
            }
        }
    }
}

/// Two strictly ordered sequences that hold the same items are the same
/// sequence: a set has one canonical form.
pub proof fn lemma_strictly_ordered_unique<T: Keyed>(a: Seq<T::V>, b: Seq<T::V>)
    requires
        strictly_ordered::<T>(a),
        strictly_ordered::<T>(b),
        forall|y: T::V| a.contains(y) <==> b.contains(y),
    ensures
        a == b,
    decreases a.len(),
{
    if a.len() == 0 {
        if b.len() > 0 {
            assert(b.contains(b[0]));
            assert(a.contains(b[0]));
        }
        assert(a =~= b);
    } else if b.len() == 0 {
        assert(a.contains(a[0]));
        assert(b.contains(a[0]));
    } else {
        let la = a.last();
        let lb = b.last();
        assert(a.contains(la)) by {
            assert(a[a.len() - 1] == la);
        }
        assert(b.contains(lb)) by {
            assert(b[b.len() - 1] == lb);
        }
        let ia = choose|i: int| 0 <= i < a.len() && a[i] == lb;
        let ib = choose|i: int| 0 <= i < b.len() && b[i] == la;
        assert(la == lb) by {
            if ia < a.len() - 1 {
                assert(key_lt::<T>(a[ia], a[a.len() - 1]));
                if ib < b.len() - 1 {
                    assert(key_lt::<T>(b[ib], b[b.len() - 1]));
                    lemma_key_asymmetric::<T>(T::key(la), T::key(lb));
                }
            }
        }
        let ta = a.drop_last();
        let tb = b.drop_last();
        assert(strictly_ordered::<T>(ta)) by {
            assert forall|i: int, j: int| 0 <= i < j < ta.len() implies key_lt::<T>(
                ta[i],
                ta[j],
            ) by {
                assert(ta[i] == a[i] && ta[j] == a[j]);
            }
        }
        assert(strictly_ordered::<T>(tb)) by {
            assert forall|i: int, j: int| 0 <= i < j < tb.len() implies key_lt::<T>(
                tb[i],
                tb[j],
            ) by {
                assert(tb[i] == b[i] && tb[j] == b[j]);
            }
        }
        assert forall|y: T::V| ta.contains(y) <==> tb.contains(y) by {
            if ta.contains(y) {
                let i = choose|i: int| 0 <= i < ta.len() && ta[i] == y;
                assert(a[i] == y);
                assert(a.contains(y));
                assert(key_lt::<T>(a[i], a[a.len() - 1]));
                let j = choose|j: int| 0 <= j < b.len() && b[j] == y;
                if j == b.len() - 1 {
                    lemma_key_irreflexive::<T>(T::key(la));
                }
                assert(tb[j] == y);
            }
            if tb.contains(y) {
                let i = choose|i: int| 0 <= i < tb.len() && tb[i] == y;
                assert(b[i] == y);
                assert(b.contains(y));
                assert(key_lt::<T>(b[i], b[b.len() - 1]));
                let j = choose|j: int| 0 <= j < a.len() && a[j] == y;
                if j == a.len() - 1 {
                    lemma_key_irreflexive::<T>(T::key(la));
                }
                assert(ta[j] == y);
            }
        }
        lemma_strictly_ordered_unique::<T>(ta, tb);
        assert(a == ta.push(la));
        assert(b == tb.push(lb));
    }
}

/// The stable sort of the items by key.
pub fn sort_by_key<T: Keyed>(items: Vec<T>) -> (r: Vec<T>)
    ensures
        r.deep_view() == sort::<T>(items.deep_view()),
{
    let ghost all = items.deep_view();
    let mut rest = items;
    let mut r: Vec<T> = Vec::new();
    let ghost mut n: int = 0;
    assert(all.take(0) =~= Seq::empty());
    assert(r.deep_view() =~= Seq::empty());
    assert(rest.deep_view() =~= all.skip(0));
    while rest.len() > 0
        invariant
            0 <= n <= all.len(),
            r.deep_view() == sort::<T>(all.take(n)),
            rest.deep_view() == all.skip(n),
        decreases rest.len(),
    {
        let ghost before = rest.deep_view();
        let ghost before_items = rest@;
        let x = rest.remove(0);
        proof {
            assert(before.len() == all.len() - n);
            assert(x.deep_view() == before[0]);
            assert(x.deep_view() == all[n]);
            assert forall|i: int| 0 <= i < rest.len() implies rest.deep_view()[i] == all.skip(
                n + 1,
            )[i] by {
                assert(rest@[i] == before_items[i + 1]);
                assert(before[i + 1] == before_items[i + 1].deep_view());
            }
            assert(rest.deep_view() =~= all.skip(n + 1));
            assert(all.take(n + 1).drop_last() =~= all.take(n));
            assert(all.take(n + 1).last() == all[n]);
        }
        insert_by_key(&mut r, x);
        proof {
            n = n + 1;
        }
    }
    assert(all.take(n) =~= all);
    r
}

/// Puts `x` behind the last item whose key is not greater than its own.
pub fn insert_by_key<T: Keyed>(items: &mut Vec<T>, x: T)
    ensures
        final(items).deep_view() == insert_ordered::<T>(old(items).deep_view(), x.deep_view()),
{
    let ghost s = items.deep_view();
    let ghost xv = x.deep_view();
    let mut j: usize = items.len();
    assert(s.take(j as int) =~= s);
    assert(insert_ordered::<T>(s.take(j as int), xv) + s.skip(j as int) =~= insert_ordered::<T>(
        s,
        xv,
    ));
    while j > 0
        invariant
            0 <= j <= items.len(),
            items.deep_view() == s,
            xv == x.deep_view(),
            insert_ordered::<T>(s, xv) == insert_ordered::<T>(s.take(j as int), xv) + s.skip(
                j as int,
            ),
        ensures
            0 <= j <= items.len(),
            items.deep_view() == s,
            insert_ordered::<T>(s, xv) == s.take(j as int).push(xv) + s.skip(j as int),
        decreases j,
    {
        assert(items[j - 1].deep_view() == s[j - 1]);
        if !x.key_less(&items[j - 1]) {
            assert(s.take(j as int).last() == s[j - 1]);
            break ;
        }
        proof {
            let t = s.take(j as int);
            assert(t.last() == s[j - 1]);
            assert(t.drop_last() =~= s.take(j - 1));
            assert(insert_ordered::<T>(t, xv) == insert_ordered::<T>(s.take(j - 1), xv).push(
                s[j - 1],
            ));
            assert(insert_ordered::<T>(s.take(j - 1), xv).push(s[j - 1]) + s.skip(j as int)
                =~= insert_ordered::<T>(s.take(j - 1), xv) + s.skip(j - 1));
        }
        j -= 1;
    }
    items.insert(j, x);
    assert(items.deep_view() =~= s.take(j as int).push(xv) + s.skip(j as int));
}

/// Whether the keys never decrease along the items.
pub fn is_ordered<T: Keyed>(items: &Vec<T>) -> (r: bool)
    ensures
        r == ordered::<T>(items.deep_view()),
{
    let ghost s = items.deep_view();
    if items.len() < 2 {
        return true;
    }
    let mut i: usize = 1;
    while i < items.len()
        invariant
            1 <= i <= items.len(),
            s == items.deep_view(),
            ordered::<T>(s.take(i as int)),
        decreases items.len() - i,
    {
        assert(s[i as int] == items[i as int].deep_view());
        assert(s[i - 1] == items[i - 1].deep_view());
        if items[i].key_less(&items[i - 1]) {
            return false;
        }
        proof {
            let t = s.take(i as int);
            let u = s.take(i + 1);
            assert forall|a: int, b: int| 0 <= a < b < u.len() implies !key_lt::<T>(u[b], u[a]) by {
                if b < i {
                    assert(t[a] == u[a] && t[b] == u[b]);
                } else if a < i - 1 {
                    assert(t[a] == u[a] && t[i - 1] == u[i - 1]);
                    assert(!key_lt::<T>(t[i - 1], t[a]));
                    if key_lt::<T>(u[b], u[a]) {
                        lemma_key_total::<T>(T::key(u[i - 1]), T::key(u[a]));
                        if T::key(u[i - 1]) != T::key(u[a]) {
                            lemma_key_transitive::<T>(T::key(u[b]), T::key(u[a]), T::key(u[i - 1]));
                        }
                    }
                }
            }
        }
        i += 1;
    }
    assert(s.take(i as int) =~= s);
    true
}

/// Whether the keys strictly increase along the items.
pub fn is_strictly_ordered<T: Keyed>(items: &Vec<T>) -> (r: bool)
    ensures
        r == strictly_ordered::<T>(items.deep_view()),
{
    let ghost s = items.deep_view();
    if items.len() < 2 {
        return true;
    }
    let mut i: usize = 1;
    while i < items.len()
        invariant
            1 <= i <= items.len(),
            s == items.deep_view(),
            strictly_ordered::<T>(s.take(i as int)),
        decreases items.len() - i,
    {
        assert(s[i as int] == items[i as int].deep_view());
        assert(s[i - 1] == items[i - 1].deep_view());
        if !items[i - 1].key_less(&items[i]) {
            return false;
        }
        proof {
            let t = s.take(i as int);
            let u = s.take(i + 1);
            assert forall|a: int, b: int| 0 <= a < b < u.len() implies key_lt::<T>(u[a], u[b]) by {
                if b < i {
                    assert(t[a] == u[a] && t[b] == u[b]);
                } else if a < i - 1 {
                    assert(t[a] == u[a] && t[i - 1] == u[i - 1]);
                    assert(key_lt::<T>(t[a], t[i - 1]));
                    lemma_key_transitive::<T>(T::key(u[a]), T::key(u[i - 1]), T::key(u[b]));
                }
            }
        }
        i += 1;
    }
    assert(s.take(i as int) =~= s);
    true
}

/// Where an item with the key of `x` stands, if there is one.
pub fn find_key<T: Keyed>(items: &Vec<T>, x: &T) -> (r: Option<usize>)
    ensures
        r is Some <==> has_key::<T>(items.deep_view(), T::key(x.deep_view())),
        r matches Some(i) ==> i < items.len() && T::key(items.deep_view()[i as int]) == T::key(
            x.deep_view(),
        ) && !has_key::<T>(items.deep_view().take(i as int), T::key(x.deep_view())),
{
    let ghost s = items.deep_view();
    let ghost k = T::key(x.deep_view());
    let mut i: usize = 0;
    while i < items.len()
        invariant
            0 <= i <= items.len(),
            s == items.deep_view(),
            k == T::key(x.deep_view()),
            !has_key::<T>(s.take(i as int), k),
        decreases items.len() - i,
    {
        assert(s[i as int] == items[i as int].deep_view());
        if items[i].key_equal(x) {
            assert(T::key(s[i as int]) == k);
            return Some(i);
        }
        proof {
            let u = s.take(i + 1);
            if has_key::<T>(u, k) {
                let m = choose|m: int| 0 <= m < u.len() && #[trigger] T::key(u[m]) == k;
                if m < i {
                    assert(T::key(s.take(i as int)[m]) == k);
                }
            }
        }
        i += 1;
    }
    assert(s.take(i as int) =~= s);
    None
}

/// Whether an item with the key of `x` is among the items.
pub fn contains_key<T: Keyed>(items: &Vec<T>, x: &T) -> (r: bool)
    ensures
        r == has_key::<T>(items.deep_view(), T::key(x.deep_view())),
{
    find_key(items, x).is_some()
}

/// Adds `x` to items in strict key order; an item with its key gives way.
/// Returns whether the key is new.
pub fn put_by_key<T: Keyed>(items: &mut Vec<T>, x: T) -> (added: bool)
    ensures
        final(items).deep_view() == put::<T>(old(items).deep_view(), x.deep_view()),
        strictly_ordered::<T>(old(items).deep_view()) ==> added == !has_key::<T>(
            old(items).deep_view(),
            T::key(x.deep_view()),
        ),
{
    let ghost s = items.deep_view();
    let ghost xv = x.deep_view();
    let mut j: usize = items.len();
    assert(s.take(j as int) =~= s);
    assert(put::<T>(s.take(j as int), xv) + s.skip(j as int) =~= put::<T>(s, xv));
    let mut replace: bool = false;
    while j > 0
        invariant_except_break
            !replace,
        invariant
            0 <= j <= items.len(),
            items.deep_view() == s,
            xv == x.deep_view(),
            put::<T>(s, xv) == put::<T>(s.take(j as int), xv) + s.skip(j as int),
        ensures
            0 <= j <= items.len(),
            items.deep_view() == s,
            xv == x.deep_view(),
            replace ==> j > 0 && T::key(s[j - 1]) == T::key(xv) && put::<T>(s, xv) == s.take(
                j - 1,
            ).push(xv) + s.skip(j as int),
            !replace ==> put::<T>(s, xv) == s.take(j as int).push(xv) + s.skip(j as int),
            !replace ==> j == 0 || key_lt::<T>(s[j - 1], xv),
        decreases j,
    {
        assert(items[j - 1].deep_view() == s[j - 1]);
        let ghost t = s.take(j as int);
        assert(t.last() == s[j - 1]);
        assert(t.drop_last() =~= s.take(j - 1));
        if x.key_equal(&items[j - 1]) {
            replace = true;
            break ;
        }
        if !x.key_less(&items[j - 1]) {
            proof {
                lemma_key_total::<T>(T::key(s[j - 1]), T::key(xv));
            }
            break ;
        }
        proof {
            assert(put::<T>(t, xv) == put::<T>(s.take(j - 1), xv).push(s[j - 1]));
            assert(put::<T>(s.take(j - 1), xv).push(s[j - 1]) + s.skip(j as int) =~= put::<T>(
                s.take(j - 1),
                xv,
            ) + s.skip(j - 1));
        }
        j -= 1;
    }
    if replace {
        items.set(j - 1, x);
        assert(items.deep_view() =~= s.take(j - 1).push(xv) + s.skip(j as int));
        proof {
            assert(has_key::<T>(s, T::key(xv)));
        }
        false
    } else {
        items.insert(j, x);
        assert(items.deep_view() =~= s.take(j as int).push(xv) + s.skip(j as int));
        proof {
            if strictly_ordered::<T>(s) && has_key::<T>(s, T::key(xv)) {
                let m = choose|m: int| 0 <= m < s.len() && #[trigger] T::key(s[m]) == T::key(xv);
                if m < j {
                    if m < j - 1 {
                        assert(key_lt::<T>(s[m], s[j - 1]));
                        lemma_key_asymmetric::<T>(T::key(s[m]), T::key(s[j - 1]));
                    } else {
                        lemma_key_irreflexive::<T>(T::key(xv));
                    }
                } else {
                    // every item from `j` on comes after `x`
                    lemma_put::<T>(s, xv);
                    assert(put::<T>(s, xv).len() == s.len());
                }
            }
        }
        true
    }
}

/// Takes away the first item that has the key of `x`. Returns whether there
/// was one.
pub fn remove_by_key<T: Keyed>(items: &mut Vec<T>, x: &T) -> (removed: bool)
    ensures
        final(items).deep_view() == without::<T>(old(items).deep_view(), T::key(x.deep_view())),
        removed == has_key::<T>(old(items).deep_view(), T::key(x.deep_view())),
{
    let ghost s = items.deep_view();
    let ghost k = T::key(x.deep_view());
    match find_key(items, x) {
        Some(i) => {
            items.remove(i);
            proof {
                lemma_without_at::<T>(s, k, i as int);
                assert(items.deep_view() =~= s.remove(i as int));
            }
            true
        },
        None => {
            proof {
                lemma_without_absent::<T>(s, k);
            }
            false
        },
    }
}

proof fn lemma_without_absent<T: Keyed>(s: Seq<T::V>, k: T::Key)
    requires
        !has_key::<T>(s, k),
    ensures
        without::<T>(s, k) == s,
    decreases s.len(),
{
    if s.len() > 0 {
        let t = s.drop_last();
        assert(T::key(s[s.len() - 1]) != k);
        assert(!has_key::<T>(t, k)) by {
            if has_key::<T>(t, k) {
                let i = choose|i: int| 0 <= i < t.len() && #[trigger] T::key(t[i]) == k;
                assert(T::key(s[i]) == k);
            }
        }
        lemma_without_absent::<T>(t, k);
        assert(s == t.push(s.last()));
    }
}

proof fn lemma_without_at<T: Keyed>(s: Seq<T::V>, k: T::Key, i: int)
    requires
        0 <= i < s.len(),
        T::key(s[i]) == k,
        !has_key::<T>(s.take(i), k),
    ensures
        without::<T>(s, k) == s.remove(i),
    decreases s.len(),
{
    let t = s.drop_last();
    if i == s.len() - 1 {
        assert(t =~= s.take(i));
        assert(s.remove(i) =~= t);
    } else {
        assert(T::key(t[i]) == k);
        assert(has_key::<T>(t, k));
        assert(t.take(i) =~= s.take(i));
        lemma_without_at::<T>(t, k, i);
        assert(t.remove(i).push(s.last()) =~= s.remove(i));
    }
}

/// Lexicographic "before" on sequences of keys, looking only at positions
/// from `i` on: a sequence that ends comes before one that goes on,
/// otherwise the first position with different keys decides.
pub open spec fn lexical_from<T: Keyed>(a: Seq<T::Key>, b: Seq<T::Key>, i: int) -> bool
    decreases a.len() - i,
{
    if i >= a.len() {
        i < b.len()
    } else if i >= b.len() {
        false
    } else if a[i] == b[i] {
        lexical_from::<T>(a, b, i + 1)
    } else {
        T::before(a[i], b[i])
    }
}

/// The keys of the items, item by item.
pub open spec fn keys<T: Keyed>(items: Seq<T::V>) -> Seq<T::Key> {
    Seq::new(items.len(), |i: int| T::key(items[i]))
}

proof fn lemma_lexical_irreflexive<T: Keyed>(a: Seq<T::Key>, i: int)
    requires
        0 <= i,
    ensures
        !lexical_from::<T>(a, a, i),
    decreases a.len() - i,
{
    if i < a.len() {
        lemma_lexical_irreflexive::<T>(a, i + 1);
    }
}

proof fn lemma_lexical_transitive<T: Keyed>(a: Seq<T::Key>, b: Seq<T::Key>, c: Seq<T::Key>, i: int)
    requires
        0 <= i,
        lexical_from::<T>(a, b, i),
        lexical_from::<T>(b, c, i),
    ensures
        lexical_from::<T>(a, c, i),
    decreases a.len() - i,
{
    if i < a.len() && i < b.len() && i < c.len() {
        T::keys_are_ordered(a[i], b[i], c[i]);
        T::keys_are_ordered(a[i], b[i], a[i]);
        T::keys_are_ordered(b[i], c[i], b[i]);
        if a[i] == b[i] && b[i] == c[i] {
            lemma_lexical_transitive::<T>(a, b, c, i + 1);
        }
    }
}

proof fn lemma_lexical_total<T: Keyed>(a: Seq<T::Key>, b: Seq<T::Key>, i: int)
    requires
        0 <= i <= a.len(),
        i <= b.len(),
        a.subrange(0, i) == b.subrange(0, i),
        a != b,
    ensures
        lexical_from::<T>(a, b, i) || lexical_from::<T>(b, a, i),
    decreases a.len() - i,
{
    if i < a.len() && i < b.len() {
        if a[i] == b[i] {
            assert(a.subrange(0, i + 1) == b.subrange(0, i + 1)) by {
                assert(a.subrange(0, i + 1) =~= a.subrange(0, i).push(a[i]));
                assert(b.subrange(0, i + 1) =~= b.subrange(0, i).push(b[i]));
            }
            lemma_lexical_total::<T>(a, b, i + 1);
        } else {
            T::keys_are_ordered(a[i], b[i], a[i]);
        }
    } else if i == a.len() && i == b.len() {
        assert(a =~= a.subrange(0, i));
        assert(b =~= b.subrange(0, i));
    }
}

/// Sequences of keyed items are keyed too: by the sequence of their keys,
/// in lexicographic order.
impl<T: Keyed> Keyed for Vec<T> {
    type Key = Seq<T::Key>;

    open spec fn key(item: Seq<T::V>) -> Seq<T::Key> {
        keys::<T>(item)
    }

    open spec fn before(a: Seq<T::Key>, b: Seq<T::Key>) -> bool {
        lexical_from::<T>(a, b, 0)
    }

    proof fn keys_are_ordered(a: Seq<T::Key>, b: Seq<T::Key>, c: Seq<T::Key>) {
        lemma_lexical_irreflexive::<T>(a, 0);
        if a != b {
            assert(a.subrange(0, 0) =~= b.subrange(0, 0));
            lemma_lexical_total::<T>(a, b, 0);
        }
        if lexical_from::<T>(a, b, 0) && lexical_from::<T>(b, c, 0) {
            lemma_lexical_transitive::<T>(a, b, c, 0);
        }
    }

    fn key_less(&self, other: &Self) -> (r: bool) {
        let ghost a = keys::<T>(self.deep_view());
        let ghost b = keys::<T>(other.deep_view());
        let mut i: usize = 0;
        while i < self.len() && i < other.len()
            invariant
                0 <= i <= self.len(),
                i <= other.len(),
                a == keys::<T>(self.deep_view()),
                b == keys::<T>(other.deep_view()),
                lexical_from::<T>(a, b, 0) == lexical_from::<T>(a, b, i as int),
            decreases self.len() - i,
        {
            assert(a[i as int] == T::key(self[i as int].deep_view()));
            assert(b[i as int] == T::key(other[i as int].deep_view()));
            if !self[i].key_equal(&other[i]) {
                return self[i].key_less(&other[i]);
            }
            i += 1;
        }
        self.len() < other.len()
    }

    fn key_equal(&self, other: &Self) -> (r: bool) {
        let ghost a = keys::<T>(self.deep_view());
        let ghost b = keys::<T>(other.deep_view());
        if self.len() != other.len() {
            assert(a.len() != b.len());
            return false;
        }
        let mut i: usize = 0;
        while i < self.len()
            invariant
                0 <= i <= self.len(),
                self.len() == other.len(),
                a == keys::<T>(self.deep_view()),
                b == keys::<T>(other.deep_view()),
                forall|k: int| 0 <= k < i ==> a[k] == b[k],
            decreases self.len() - i,
        {
            assert(a[i as int] == T::key(self[i as int].deep_view()));
            assert(b[i as int] == T::key(other[i as int].deep_view()));
            if !self[i].key_equal(&other[i]) {
                assert(a[i as int] != b[i as int]);
                return false;
            }
            i += 1;
        }
        assert(a =~= b);
        true
    }
}

} // verus!
