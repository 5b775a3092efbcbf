//! Stable sorting under a strict weak order.

use crate::text::{less, text_less, text_less_is_total, text_less_is_transitive};
use vstd::prelude::*;

verus! {

/// Values that can be put in order. Neither of two values need come before
/// the other; such values are of equal rank.
pub trait Ordered: Sized {
    /// Whether `self` comes strictly before `other`.
    spec fn before(self, other: Self) -> bool;

    /// The order is strict, transitive, and equal rank is transitive too.
    proof fn is_weak_order(a: Self, b: Self, c: Self)
        ensures
            !a.before(a),
            a.before(b) && b.before(c) ==> a.before(c),
            !a.before(b) && !b.before(c) ==> !a.before(c),
    ;
}

/// Values whose order can be decided.
pub trait Sortable: Ordered {
    /// Decide `before`.
    fn precedes(&self, other: &Self) -> (r: bool)
        ensures
            r == self.before(*other),
    ;
}

/// `x` put behind every element that does not come after it.
pub open spec fn inserted<T: Ordered>(s: Seq<T>, x: T) -> Seq<T>
    decreases s.len(),
{
    if s.len() == 0 || !x.before(s.last()) {
        s.push(x)
    } else {
        inserted(s.drop_last(), x).push(s.last())
    }
}

/// The elements in order; those of equal rank keep their sequence.
pub open spec fn ordered<T: Ordered>(s: Seq<T>) -> Seq<T>
    decreases s.len(),
{
    if s.len() == 0 {
        s
    } else {
        inserted(ordered(s.drop_last()), s.last())
    }
}

/// Whether no element comes before one in front of it.
pub open spec fn in_order<T: Ordered>(s: Seq<T>) -> bool {
    forall|i: int, j: int| 0 <= i < j < s.len() ==> !(#[trigger] s[j]).before(#[trigger] s[i])
}

/// Two runs merged; where ranks are equal, `a` comes first.
pub open spec fn merged<T: Ordered>(a: Seq<T>, b: Seq<T>) -> Seq<T>
    decreases a.len() + b.len(),
{
    if b.len() == 0 {
        a
    } else if a.len() == 0 {
        b
    } else if b.last().before(a.last()) {
        merged(a.drop_last(), b).push(a.last())
    } else {
        merged(a, b.drop_last()).push(b.last())
    }
}

/// Inserting into the second run inserts into the merge.
proof fn merge_inserts<T: Ordered>(a: Seq<T>, b: Seq<T>, x: T)
    ensures
        merged(a, inserted(b, x)) == inserted(merged(a, b), x),
    decreases a.len() + b.len(),
{
    if a.len() == 0 {
    } else if b.len() == 0 {
        assert(inserted(b, x) == seq![x]);
        assert(seq![x].drop_last() == b);
        if x.before(a.last()) {
            merge_inserts(a.drop_last(), b, x);
        }
    } else {
        let p = a.last();
        let q = b.last();
        T::is_weak_order(x, q, p);
        T::is_weak_order(q, x, p);
        if !x.before(q) {
            assert(b.push(x).drop_last() == b);
            if x.before(p) {
                merge_inserts(a.drop_last(), b, x);
                let m = merged(a.drop_last(), b);
                assert(m.push(p).drop_last() == m);
            }
        } else {
            let t = inserted(b.drop_last(), x);
            assert(t.push(q).drop_last() == t);
            if q.before(p) {
                merge_inserts(a.drop_last(), b, x);
                let m = merged(a.drop_last(), b);
                assert(m.push(p).drop_last() == m);
            } else {
                merge_inserts(a, b.drop_last(), x);
                let m = merged(a, b.drop_last());
                assert(m.push(q).drop_last() == m);
            }
        }
    }
}

/// Sorting two halves and merging them sorts the whole.
proof fn merge_orders<T: Ordered>(a: Seq<T>, b: Seq<T>)
    ensures
        merged(ordered(a), ordered(b)) == ordered(a + b),
    decreases b.len(),
{
    if b.len() == 0 {
        assert(a + b == a);
    } else {
        merge_orders(a, b.drop_last());
        assert((a + b).drop_last() == a + b.drop_last());
        merge_inserts(ordered(a), ordered(b.drop_last()), b.last());
    }
}

/// The elements of `v`, last to first.
pub fn reversed<T>(v: Vec<T>) -> (r: Vec<T>)
    ensures
        r@ == v@.reverse(),
{
    let mut v = v;
    let mut out: Vec<T> = Vec::new();
    let ghost whole = v@;
    while v.len() > 0
        invariant
            out@ + v@.reverse() == whole.reverse(),
        decreases v@.len(),
    {
        let ghost rest = v@;
        if let Some(x) = v.pop() {
            proof {
                assert(rest.reverse() == seq![x] + v@.reverse());
                assert(out@ + rest.reverse() == out@.push(x) + v@.reverse());
            }
            out.push(x);
        }
    }
    proof {
        assert(out@ + v@.reverse() == out@);
    }
    out
}

/// Merge two runs.
fn merge<T: Sortable>(a: Vec<T>, b: Vec<T>) -> (r: Vec<T>)
    ensures
        r@ == merged(a@, b@),
{
    let mut a = a;
    let mut b = b;
    let ghost whole = merged(a@, b@);
    let mut back: Vec<T> = Vec::new();
    proof {
        assert(whole + back@.reverse() == whole);
    }
    while a.len() > 0 && b.len() > 0
        invariant
            merged(a@, b@) + back@.reverse() == whole,
        decreases a@.len() + b@.len(),
    {
        let ghost a0 = a@;
        let ghost b0 = b@;
        let ghost back0 = back@;
        let i = a.len() - 1;
        let j = b.len() - 1;
        let take_a = b[j].precedes(&a[i]);
        let next = if take_a {
            a.pop()
        } else {
            b.pop()
        };
        if let Some(x) = next {
            proof {
                assert(merged(a0, b0) == merged(a@, b@).push(x));
                assert(back0.push(x).reverse() == seq![x] + back0.reverse());
                assert(merged(a@, b@).push(x) + back0.reverse() == merged(a@, b@) + back0.push(
                    x,
                ).reverse());
            }
            back.push(x);
        }
    }
    let mut out = if a.len() > 0 {
        a
    } else {
        b
    };
    let mut tail = reversed(back);
    out.append(&mut tail);
    out
}

/// Sort, keeping elements of equal rank in their sequence.
pub fn sort<T: Sortable>(v: Vec<T>) -> (r: Vec<T>)
    ensures
        r@ == ordered(v@),
    decreases v@.len(),
{
    let n = v.len();
    if n < 2 {
        proof {
            if n == 1 {
                let none = v@.drop_last();
                assert(none.len() == 0);
                assert(ordered(none) == none);
                assert(v@ == none.push(v@[0]));
            }
        }
        return v;
    }
    let mut front = v;
    let back = front.split_off(n / 2);
    proof {
        assert(front@ + back@ == v@);
        merge_orders(front@, back@);
    }
    merge(sort(front), sort(back))
}

/// The first `n` elements, or all when there are fewer.
pub open spec fn up_to<T>(s: Seq<T>, n: int) -> Seq<T> {
    if s.len() <= n {
        s
    } else {
        s.take(n)
    }
}

// ---------------------------------------------------------------------------
// Names
// ---------------------------------------------------------------------------

/// The order of names is a strict weak order.
pub proof fn names_are_ordered(a: Seq<char>, b: Seq<char>, c: Seq<char>)
    ensures
        !text_less(a, a),
        text_less(a, b) && text_less(b, c) ==> text_less(a, c),
        !text_less(a, b) && !text_less(b, c) ==> !text_less(a, c),
        text_less(a, b) ==> !text_less(b, a),
{
    text_less_is_total(a, b);
    text_less_is_total(b, c);
    text_less_is_total(a, c);
    if text_less(a, b) && text_less(b, c) {
        text_less_is_transitive(a, b, c);
    }
    if text_less(b, a) && text_less(c, b) {
        text_less_is_transitive(c, b, a);
    }
}

impl Ordered for Seq<char> {
    /// By name.
    open spec fn before(self, other: Seq<char>) -> bool {
        text_less(self, other)
    }

    proof fn is_weak_order(a: Seq<char>, b: Seq<char>, c: Seq<char>) {
        names_are_ordered(a, b, c);
    }
}

impl Ordered for Vec<char> {
    open spec fn before(self, other: Vec<char>) -> bool {
        text_less(self@, other@)
    }

    proof fn is_weak_order(a: Vec<char>, b: Vec<char>, c: Vec<char>) {
        names_are_ordered(a@, b@, c@);
    }
}

impl Sortable for Vec<char> {
    fn precedes(&self, other: &Vec<char>) -> (r: bool) {
        less(self.as_slice(), other.as_slice())
    }
}

// ---------------------------------------------------------------------------
// Laws
// ---------------------------------------------------------------------------

/// Insertion neither loses nor adds an element.
pub proof fn insertion_permutes<T: Ordered>(s: Seq<T>, x: T)
    ensures
        inserted(s, x).to_multiset() == s.to_multiset().insert(x),
        inserted(s, x).len() == s.len() + 1,
    decreases s.len(),
{
    broadcast use vstd::seq_lib::group_to_multiset_ensures;

    if s.len() > 0 && x.before(s.last()) {
        insertion_permutes(s.drop_last(), x);
        assert(s == s.drop_last().push(s.last()));
        assert(s.to_multiset().insert(x) == s.drop_last().to_multiset().insert(x).insert(s.last()));
    }
}

/// Sorting neither loses nor adds an element.
pub proof fn sorting_permutes<T: Ordered>(s: Seq<T>)
    ensures
        ordered(s).to_multiset() == s.to_multiset(),
        ordered(s).len() == s.len(),
    decreases s.len(),
{
    broadcast use vstd::seq_lib::group_to_multiset_ensures;

    if s.len() > 0 {
        sorting_permutes(s.drop_last());
        insertion_permutes(ordered(s.drop_last()), s.last());
        assert(s == s.drop_last().push(s.last()));
    }
}

/// Sorting keeps the elements: what is in one is in the other, and what was
/// there once stays there once.
pub proof fn sorting_keeps_elements<T: Ordered>(s: Seq<T>)
    ensures
        forall|x: T| #[trigger] ordered(s).contains(x) <==> s.contains(x),
        s.no_duplicates() ==> ordered(s).no_duplicates(),
{
    broadcast use vstd::seq_lib::group_to_multiset_ensures;

    sorting_permutes(s);
    assert forall|x: T| #[trigger] ordered(s).contains(x) <==> s.contains(x) by {
        assert(ordered(s).contains(x) <==> ordered(s).to_multiset().count(x) > 0);
        assert(s.contains(x) <==> s.to_multiset().count(x) > 0);
    }
    if s.no_duplicates() {
        s.lemma_multiset_has_no_duplicates();
        ordered(s).lemma_multiset_has_no_duplicates_conv();
    }
}

/// Insertion keeps order.
pub proof fn insertion_keeps_order<T: Ordered>(s: Seq<T>, x: T)
    requires
        in_order(s),
    ensures
        in_order(inserted(s, x)),
        forall|i: int|
            0 <= i < inserted(s, x).len() ==> (#[trigger] inserted(s, x)[i] == x || s.contains(
                inserted(s, x)[i],
            )),
    decreases s.len(),
{
    let r = inserted(s, x);
    if s.len() == 0 || !x.before(s.last()) {
        assert forall|i: int, j: int| 0 <= i < j < r.len() implies !(#[trigger] r[j]).before(
            #[trigger] r[i],
        ) by {
            if j == s.len() && i < s.len() - 1 {
                T::is_weak_order(x, s.last(), s[i]);
            }
        }
        assert forall|i: int| 0 <= i < r.len() implies (#[trigger] r[i] == x || s.contains(
            r[i],
        )) by {
            if i < s.len() {
                assert(r[i] == s[i]);
            }
        }
    } else {
        let t = inserted(s.drop_last(), x);
        insertion_keeps_order(s.drop_last(), x);
        assert forall|i: int| 0 <= i < t.len() implies !s.last().before(#[trigger] t[i]) by {
            if t[i] == x {
                T::is_weak_order(x, s.last(), x);
            } else {
                let k = choose|k: int| 0 <= k < s.drop_last().len() && s.drop_last()[k] == t[i];
                assert(s[k] == t[i]);
            }
        }
        assert forall|i: int| 0 <= i < r.len() implies (#[trigger] r[i] == x || s.contains(
            r[i],
        )) by {
            if i == r.len() - 1 {
                assert(r[i] == s[s.len() - 1]);
            } else if t[i] != x {
                assert(r[i] == t[i]);
                let k = choose|k: int| 0 <= k < s.drop_last().len() && s.drop_last()[k] == t[i];
                assert(s[k] == r[i]);
            }
        }
    }
}

/// Sorting puts the elements in order.
pub proof fn sorting_orders<T: Ordered>(s: Seq<T>)
    ensures
        in_order(ordered(s)),
    decreases s.len(),
{
    if s.len() > 0 {
        sorting_orders(s.drop_last());
        insertion_keeps_order(ordered(s.drop_last()), s.last());
    }
}

/// Sorting what is in order changes nothing.
pub proof fn sorting_is_idempotent<T: Ordered>(s: Seq<T>)
    requires
        in_order(s),
    ensures
        ordered(s) == s,
    decreases s.len(),
{
    if s.len() > 0 {
        let front = s.drop_last();
        assert forall|i: int, j: int| 0 <= i < j < front.len() implies !(
        #[trigger] front[j]).before(#[trigger] front[i]) by {
            assert(front[i] == s[i] && front[j] == s[j]);
        }
        sorting_is_idempotent(front);
        if front.len() > 0 {
            assert(!s[s.len() - 1].before(s[s.len() - 2]));
        }
        assert(front.push(s.last()) =~= s);
    }
}

/// Inserting commutes with a change of type that keeps the order.
proof fn insertion_commutes<A: Ordered, B: Ordered>(s: Seq<A>, x: A, f: spec_fn(A) -> B)
    requires
        forall|a: A, b: A| #[trigger] a.before(b) == f(a).before(f(b)),
    ensures
        inserted(s, x).map_values(f) == inserted(s.map_values(f), f(x)),
    decreases s.len(),
{
    let t = s.map_values(f);
    if s.len() > 0 {
        assert(t.last() == f(s.last()));
        assert(x.before(s.last()) == f(x).before(t.last()));
    }
    if s.len() > 0 && x.before(s.last()) {
        insertion_commutes(s.drop_last(), x, f);
        assert(t.drop_last() == s.drop_last().map_values(f));
        let front = inserted(s.drop_last(), x);
        assert(front.push(s.last()).map_values(f) == front.map_values(f).push(f(s.last())));
    } else {
        assert(s.push(x).map_values(f) == t.push(f(x)));
    }
}

/// Sorting commutes with a change of type that keeps the order.
pub proof fn sorting_commutes<A: Ordered, B: Ordered>(s: Seq<A>, f: spec_fn(A) -> B)
    requires
        forall|a: A, b: A| #[trigger] a.before(b) == f(a).before(f(b)),
    ensures
        ordered(s).map_values(f) == ordered(s.map_values(f)),
    decreases s.len(),
{
    let t = s.map_values(f);
    if s.len() > 0 {
        sorting_commutes(s.drop_last(), f);
        assert(t.drop_last() == s.drop_last().map_values(f));
        insertion_commutes(ordered(s.drop_last()), s.last(), f);
    }
}

/// The elements of the same rank as `k`.
pub open spec fn peers<T: Ordered>(s: Seq<T>, k: T) -> Seq<T> {
    s.filter(|e: T| !e.before(k) && !k.before(e))
}

/// One more element adds itself, if it is a peer.
proof fn peers_push<T: Ordered>(s: Seq<T>, x: T, k: T)
    ensures
        peers(s.push(x), k) == if !x.before(k) && !k.before(x) {
            peers(s, k).push(x)
        } else {
            peers(s, k)
        },
{
    reveal(Seq::filter);
    assert(s.push(x).drop_last() == s);
}

/// Insertion puts an element behind all its peers.
proof fn insertion_is_stable<T: Ordered>(s: Seq<T>, x: T, k: T)
    ensures
        peers(inserted(s, x), k) == peers(s.push(x), k),
    decreases s.len(),
{
    if s.len() > 0 && x.before(s.last()) {
        let y = s.last();
        let front = s.drop_last();
        insertion_is_stable(front, x, k);
        peers_push(inserted(front, x), y, k);
        peers_push(s, x, k);
        peers_push(front, y, k);
        peers_push(front, x, k);
        assert(s == front.push(y));
        T::is_weak_order(x, k, y);
    }
}

/// Sorting keeps elements of equal rank in their sequence.
pub proof fn sorting_is_stable<T: Ordered>(s: Seq<T>, k: T)
    ensures
        peers(ordered(s), k) == peers(s, k),
    decreases s.len(),
{
    if s.len() > 0 {
        let front = s.drop_last();
        sorting_is_stable(front, k);
        insertion_is_stable(ordered(front), s.last(), k);
        peers_push(ordered(front), s.last(), k);
        peers_push(front, s.last(), k);
        assert(s == front.push(s.last()));
    }
}

/// Sequences in order with the same elements, none of them twice, are equal
/// where the order tells any two of the elements apart.
proof fn one_order<T: Ordered>(p: Seq<T>, q: Seq<T>)
    requires
        in_order(p),
        in_order(q),
        p.no_duplicates(),
        q.no_duplicates(),
        forall|x: T| #[trigger] p.contains(x) <==> q.contains(x),
        forall|i: int, j: int|
            0 <= i < p.len() && 0 <= j < p.len() && i != j ==> (#[trigger] p[i]).before(
                #[trigger] p[j],
            ) || p[j].before(p[i]),
    ensures
        p == q,
    decreases p.len(),
{
    if p.len() == 0 {
        if q.len() > 0 {
            assert(q.contains(q[0]));
            assert(p.contains(q[0]));
        }
        assert(p =~= q);
    } else {
        let x = p.last();
        assert(p[p.len() - 1] == x);
        assert(p.contains(x));
        assert(q.contains(x));
        let k = q.index_of(x);
        let y = q.last();
        assert(q[q.len() - 1] == y);
        assert(q.contains(y));
        assert(p.contains(y));
        let h = p.index_of(y);
        if x != y {
            assert(!q[q.len() - 1].before(q[k]));
            assert(!p[p.len() - 1].before(p[h]));
        }
        let a = p.drop_last();
        let b = q.drop_last();
        assert forall|z: T| #[trigger] a.contains(z) <==> b.contains(z) by {
            if a.contains(z) {
                let i = a.index_of(z);
                assert(p[i] == z);
                assert(p.contains(z));
                let j = q.index_of(z);
                assert(z != x);
                assert(b[j] == z);
            }
            if b.contains(z) {
                let j = b.index_of(z);
                assert(q[j] == z);
                assert(q.contains(z));
                assert(p.contains(z));
                let i = p.index_of(z);
                assert(z != y);
                assert(a[i] == z);
            }
        }
        one_order(a, b);
        assert(p == a.push(x));
        assert(q == b.push(y));
    }
}

/// The sequence in which elements come does not matter to their order, where
/// none comes twice and the order tells any two apart.
pub proof fn sorting_ignores_sequence<T: Ordered>(a: Seq<T>, b: Seq<T>)
    requires
        a.no_duplicates(),
        b.no_duplicates(),
        forall|x: T| #[trigger] a.contains(x) <==> b.contains(x),
        forall|x: T, y: T|
            #![trigger a.contains(x), a.contains(y)]
            a.contains(x) && a.contains(y) && x != y ==> x.before(y) || y.before(x),
    ensures
        ordered(a) == ordered(b),
{
    sorting_orders(a);
    sorting_orders(b);
    sorting_keeps_elements(a);
    sorting_keeps_elements(b);
    let p = ordered(a);
    assert forall|i: int, j: int| 0 <= i < p.len() && 0 <= j < p.len() && i != j implies (
    #[trigger] p[i]).before(#[trigger] p[j]) || p[j].before(p[i]) by {
        assert(p.contains(p[i]));
        assert(p.contains(p[j]));
        assert(a.contains(p[i]) && a.contains(p[j]));
    }
    assert forall|x: T| #[trigger] p.contains(x) <==> ordered(b).contains(x) by {
        assert(p.contains(x) <==> a.contains(x));
    }
    one_order(p, ordered(b));
}

// ---------------------------------------------------------------------------
// Permutations
// ---------------------------------------------------------------------------

/// Whether two sequences hold the same elements, each equally often.
pub open spec fn permuted<T>(a: Seq<T>, b: Seq<T>) -> bool {
    a.to_multiset() == b.to_multiset()
}

/// Permuted sequences have the same length and the same elements.
pub proof fn permuted_is_same<T>(a: Seq<T>, b: Seq<T>)
    requires
        permuted(a, b),
    ensures
        a.len() == b.len(),
        forall|x: T| #[trigger] a.contains(x) <==> b.contains(x),
{
    broadcast use vstd::seq_lib::group_to_multiset_ensures;

    assert(a.to_multiset().len() == a.len());
    assert(b.to_multiset().len() == b.len());
    assert forall|x: T| #[trigger] a.contains(x) <==> b.contains(x) by {
        assert(a.contains(x) <==> a.to_multiset().count(x) > 0);
        assert(b.contains(x) <==> b.to_multiset().count(x) > 0);
    }
}

/// How many elements have a property.
pub open spec fn tally<T>(s: Seq<T>, p: spec_fn(T) -> bool) -> nat
    decreases s.len(),
{
    if s.len() == 0 {
        0
    } else {
        tally(s.drop_last(), p) + if p(s.last()) {
            1nat
        } else {
            0nat
        }
    }
}

/// Taking one element out takes its own share out of a tally.
proof fn tally_without<T>(s: Seq<T>, k: int, p: spec_fn(T) -> bool)
    requires
        0 <= k < s.len(),
    ensures
        tally(s, p) == tally(s.remove(k), p) + if p(s[k]) {
            1nat
        } else {
            0nat
        },
    decreases s.len(),
{
    if k == s.len() - 1 {
        assert(s.remove(k) == s.drop_last());
    } else {
        let front = s.drop_last();
        tally_without(front, k, p);
        assert(s.remove(k).drop_last() == front.remove(k));
        assert(s.remove(k).last() == s.last());
        assert(front[k] == s[k]);
    }
}

/// Permuted sequences have the same tallies.
pub proof fn tallies_ignore_sequence<T>(a: Seq<T>, b: Seq<T>, p: spec_fn(T) -> bool)
    requires
        permuted(a, b),
    ensures
        tally(a, p) == tally(b, p),
    decreases a.len(),
{
    broadcast use vstd::seq_lib::group_to_multiset_ensures;

    permuted_is_same(a, b);
    if a.len() > 0 {
        let x = a.last();
        assert(a[a.len() - 1] == x);
        assert(a.contains(x));
        assert(b.contains(x));
        let k = b.index_of(x);
        let front = a.drop_last();
        assert(a == front.push(x));
        assert(a.to_multiset() == front.to_multiset().insert(x));
        assert(b.remove(k).to_multiset() =~= b.to_multiset().remove(b[k]));
        assert(front.to_multiset() =~= a.to_multiset().remove(x));
        tallies_ignore_sequence(front, b.remove(k), p);
        tally_without(b, k, p);
    }
}

/// Permuted sequences stay so when every element is replaced alike.
pub proof fn replacing_permutes<A, B>(a: Seq<A>, b: Seq<A>, f: spec_fn(A) -> B)
    requires
        permuted(a, b),
    ensures
        permuted(a.map_values(f), b.map_values(f)),
    decreases a.len(),
{
    broadcast use vstd::seq_lib::group_to_multiset_ensures;

    permuted_is_same(a, b);
    if a.len() > 0 {
        let x = a.last();
        assert(a[a.len() - 1] == x);
        assert(a.contains(x));
        assert(b.contains(x));
        let k = b.index_of(x);
        let front = a.drop_last();
        assert(a == front.push(x));
        assert(b.remove(k).to_multiset() =~= b.to_multiset().remove(b[k]));
        assert(front.to_multiset() =~= a.to_multiset().remove(x));
        replacing_permutes(front, b.remove(k), f);
        assert(a.map_values(f) == front.map_values(f).push(f(x)));
        let fb = b.map_values(f);
        assert(fb.remove(k) == b.remove(k).map_values(f));
        assert(fb[k] == f(x));
        assert(fb.contains(f(x)));
        assert(fb.remove(k).to_multiset() =~= fb.to_multiset().remove(fb[k]));
        assert(a.map_values(f).to_multiset() =~= fb.to_multiset());
    } else {
        assert(a.map_values(f) =~= b.map_values(f));
    }
}

/// Permuted sequences stay so when elements are left out by a property.
pub proof fn filtering_permutes<T>(a: Seq<T>, b: Seq<T>, p: spec_fn(T) -> bool)
    requires
        permuted(a, b),
    ensures
        permuted(a.filter(p), b.filter(p)),
{
    assert forall|x: T| #[trigger]
        a.filter(p).to_multiset().count(x) == b.filter(p).to_multiset().count(x) by {
        filter_count(a, p, x);
        filter_count(b, p, x);
    }
    assert(a.filter(p).to_multiset() =~= b.filter(p).to_multiset());
}

/// What a filter keeps it keeps as often as it was.
proof fn filter_count<T>(s: Seq<T>, p: spec_fn(T) -> bool, x: T)
    ensures
        s.filter(p).to_multiset().count(x) == if p(x) {
            s.to_multiset().count(x)
        } else {
            0
        },
    decreases s.len(),
{
    broadcast use vstd::seq_lib::group_to_multiset_ensures;

    reveal(Seq::filter);
    if s.len() > 0 {
        filter_count(s.drop_last(), p, x);
        assert(s == s.drop_last().push(s.last()));
    } else {
        assert(s.filter(p) =~= s);
        if !p(x) {
            assert(!s.contains(x));
            assert(s.to_multiset().count(x) == 0);
        }
    }
}

/// Appending keeps sequences permuted.
pub proof fn appending_permutes<T>(a: Seq<T>, x: Seq<T>, b: Seq<T>, y: Seq<T>)
    requires
        permuted(a, b),
        permuted(x, y),
    ensures
        permuted(a + x, b + y),
{
    vstd::seq_lib::lemma_multiset_commutative(a, x);
    vstd::seq_lib::lemma_multiset_commutative(b, y);
}

/// Two runs hold the same elements whichever comes first.
pub proof fn exchanging_permutes<T>(a: Seq<T>, b: Seq<T>)
    ensures
        permuted(a + b, b + a),
{
    vstd::seq_lib::lemma_multiset_commutative(a, b);
    vstd::seq_lib::lemma_multiset_commutative(b, a);
    assert(a.to_multiset().add(b.to_multiset()) =~= b.to_multiset().add(a.to_multiset()));
}

} // verus!
