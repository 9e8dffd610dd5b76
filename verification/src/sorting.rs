//! A verified stable insertion sort over a strict key order.
//!
//! The sort's result is pinned down exactly by the spec functions
//! [`spec_insort`] and [`spec_isort`], so callers can reason about the
//! precise arrangement, not merely about sortedness.  Elements whose keys
//! are tied keep their input order.

use vstd::prelude::*;

verus! {

broadcast use vstd::seq_lib::group_to_multiset_ensures;

/// A type ordered by a strict comparison on some key of its own.
pub trait OrderedByKey: Sized {
    /// The strict order on keys, in spec terms.
    spec fn key_lt_spec(&self, other: &Self) -> bool;

    /// Decides the strict key order.
    fn key_lt(&self, other: &Self) -> (r: bool)
        ensures
            r == self.key_lt_spec(other),
    ;
}

/// The strict order of an [`OrderedByKey`] type as a first-class function.
pub open spec fn key_lt_of<T: OrderedByKey>() -> spec_fn(T, T) -> bool {
    |a: T, b: T| a.key_lt_spec(&b)
}

/// Inserting `x` into `s` directly before the first element that `x`
/// strictly precedes; with `s` sorted this keeps `x` after tied keys.
pub open spec fn spec_insort<T>(s: Seq<T>, x: T, lt: spec_fn(T, T) -> bool) -> Seq<T>
    decreases s.len(),
{
    if s.len() == 0 {
        seq![x]
    } else if lt(x, s[0]) {
        seq![x] + s
    } else {
        seq![s[0]] + spec_insort(s.drop_first(), x, lt)
    }
}

/// Stable insertion sort: elements are inserted in input order.
pub open spec fn spec_isort<T>(s: Seq<T>, lt: spec_fn(T, T) -> bool) -> Seq<T>
    decreases s.len(),
{
    if s.len() == 0 {
        Seq::<T>::empty()
    } else {
        spec_insort(spec_isort(s.drop_last(), lt), s.last(), lt)
    }
}

/// No element later in the sequence strictly precedes an earlier one.
pub open spec fn sorted_lt<T>(s: Seq<T>, lt: spec_fn(T, T) -> bool) -> bool {
    forall|i: int, j: int| #![trigger s[i], s[j]] 0 <= i < j < s.len() ==> !lt(s[j], s[i])
}

/// A strict order usable for sorting: asymmetric and transitive.
pub open spec fn strict_order<T>(lt: spec_fn(T, T) -> bool) -> bool {
    &&& forall|a: T, b: T| #[trigger] lt(a, b) ==> !lt(b, a)
    &&& forall|a: T, b: T, c: T| #[trigger] lt(a, b) && #[trigger] lt(b, c) ==> lt(a, c)
}

/// Insertion at the position found by a left-to-right scan: if the first
/// `j` elements do not come after `x` and the element at `j` (if any) does,
/// the insertion lands exactly at index `j`.
pub proof fn lemma_insort_at<T>(s: Seq<T>, x: T, lt: spec_fn(T, T) -> bool, j: int)
    requires
        0 <= j <= s.len(),
        forall|k: int| 0 <= k < j ==> !lt(x, #[trigger] s[k]),
        j < s.len() ==> lt(x, s[j]),
    ensures
        spec_insort(s, x, lt) =~= s.take(j) + seq![x] + s.skip(j),
    decreases j,
{
    if j == 0 {
        if s.len() == 0 {
            assert(spec_insort(s, x, lt) =~= seq![x]);
        }
        assert(s.take(0) =~= Seq::<T>::empty());
        assert(s.skip(0) =~= s);
    } else {
        assert(!lt(x, s[0]));
        lemma_insort_at(s.drop_first(), x, lt, j - 1);
        assert(s.drop_first().take(j - 1) =~= s.take(j).drop_first());
        assert(s.drop_first().skip(j - 1) =~= s.skip(j));
        assert(seq![s[0]] + (s.drop_first().take(j - 1) + seq![x] + s.drop_first().skip(j - 1))
            =~= s.take(j) + seq![x] + s.skip(j));
    }
}

/// Insertion adds exactly the new element to the multiset of the sequence.
pub proof fn lemma_insort_multiset<T>(s: Seq<T>, x: T, lt: spec_fn(T, T) -> bool)
    ensures
        spec_insort(s, x, lt).len() == s.len() + 1,
        spec_insort(s, x, lt).to_multiset() =~= s.to_multiset().insert(x),
    decreases s.len(),
{
    if s.len() == 0 {
        assert(spec_insort(s, x, lt) =~= Seq::<T>::empty().push(x));
        assert(s.to_multiset().insert(x) =~= Seq::<T>::empty().push(x).to_multiset());
    } else if lt(x, s[0]) {
        assert(seq![x] + s =~= s.insert(0, x));
    } else {
        lemma_insort_multiset(s.drop_first(), x, lt);
        let inner = spec_insort(s.drop_first(), x, lt);
        assert(seq![s[0]] + inner =~= inner.insert(0, s[0]));
        assert(s =~= s.drop_first().insert(0, s[0]));
        assert(s.to_multiset() =~= s.drop_first().to_multiset().insert(s[0]));
        assert(inner.insert(0, s[0]).to_multiset() =~= inner.to_multiset().insert(s[0]));
        assert(inner.to_multiset().insert(s[0]) =~= s.drop_first().to_multiset().insert(x).insert(
            s[0],
        ));
        assert(s.drop_first().to_multiset().insert(x).insert(s[0])
            =~= s.drop_first().to_multiset().insert(s[0]).insert(x));
    }
}

/// The sort is a permutation: it preserves length and multiset.
pub proof fn lemma_isort_multiset<T>(s: Seq<T>, lt: spec_fn(T, T) -> bool)
    ensures
        spec_isort(s, lt).len() == s.len(),
        spec_isort(s, lt).to_multiset() =~= s.to_multiset(),
    decreases s.len(),
{
    if s.len() > 0 {
        lemma_isort_multiset(s.drop_last(), lt);
        lemma_insort_multiset(spec_isort(s.drop_last(), lt), s.last(), lt);
        assert(s =~= s.drop_last().push(s.last()));
        assert(s.drop_last().push(s.last()).to_multiset() =~= s.drop_last().to_multiset().insert(
            s.last(),
        ));
    }
}

/// Inserting into a sorted sequence keeps it sorted.
pub proof fn lemma_insort_sorted<T>(s: Seq<T>, x: T, lt: spec_fn(T, T) -> bool)
    requires
        sorted_lt(s, lt),
        strict_order(lt),
    ensures
        sorted_lt(spec_insort(s, x, lt), lt),
    decreases s.len(),
{
    if s.len() == 0 {
    } else if lt(x, s[0]) {
        let r = seq![x] + s;
        assert forall|i: int, j: int| 0 <= i < j < r.len() implies !lt(#[trigger] r[j], #[trigger] r[i]) by {
            if i == 0 {
                if j == 1 {
                    assert(!lt(r[j], x));
                } else {
                    assert(!lt(s[j - 1], s[0]));
                    if lt(s[j - 1], x) {
                        assert(lt(s[j - 1], s[0]));
                    }
                }
            } else {
                assert(r[i] == s[i - 1] && r[j] == s[j - 1]);
            }
        }
    } else {
        assert(sorted_lt(s.drop_first(), lt)) by {
            assert forall|i: int, j: int|
                0 <= i < j < s.drop_first().len() implies !lt(
                #[trigger] s.drop_first()[j],
                #[trigger] s.drop_first()[i],
            ) by {
                assert(s.drop_first()[i] == s[i + 1] && s.drop_first()[j] == s[j + 1]);
            }
        }
        lemma_insort_sorted(s.drop_first(), x, lt);
        let inner = spec_insort(s.drop_first(), x, lt);
        let r = seq![s[0]] + inner;
        lemma_insort_multiset(s.drop_first(), x, lt);
        assert forall|i: int, j: int| 0 <= i < j < r.len() implies !lt(#[trigger] r[j], #[trigger] r[i]) by {
            if i == 0 {
                assert(r[0] == s[0]);
                let e = r[j];
                assert(inner[j - 1] == e);
                assert(inner.to_multiset().contains(e));
                assert(s.drop_first().to_multiset().insert(x).contains(e));
                if e == x {
                    assert(!lt(x, s[0]));
                } else {
                    assert(s.drop_first().to_multiset().contains(e));
                    let k = choose|k: int|
                        0 <= k < s.drop_first().len() && s.drop_first()[k] == e;
                    assert(s[k + 1] == e);
                    assert(!lt(e, s[0]));
                }
            } else {
                assert(r[i] == inner[i - 1] && r[j] == inner[j - 1]);
            }
        }
    }
}

/// The sort's output is sorted.
pub proof fn lemma_isort_sorted<T>(s: Seq<T>, lt: spec_fn(T, T) -> bool)
    requires
        strict_order(lt),
    ensures
        sorted_lt(spec_isort(s, lt), lt),
    decreases s.len(),
{
    if s.len() > 0 {
        lemma_isort_sorted(s.drop_last(), lt);
        lemma_insort_sorted(spec_isort(s.drop_last(), lt), s.last(), lt);
    }
}

/// Every element of `x` also occurs in `y` when their multisets agree.
proof fn lemma_multiset_elem_index<T>(s: Seq<T>, e: T)
    requires
        s.to_multiset().contains(e),
    ensures
        exists|i: int| 0 <= i < s.len() && s[i] == e,
{
    assert(s.contains(e));
}

/// Two sorted sequences with the same multiset of pairwise-comparable
/// elements are identical.
pub proof fn lemma_sorted_unique_comparable<T>(x: Seq<T>, y: Seq<T>, lt: spec_fn(T, T) -> bool)
    requires
        strict_order(lt),
        sorted_lt(x, lt),
        sorted_lt(y, lt),
        x.to_multiset() == y.to_multiset(),
        forall|a: T, b: T|
            x.to_multiset().contains(a) && x.to_multiset().contains(b) && a != b ==> #[trigger] lt(
                a,
                b,
            ) || lt(b, a),
    ensures
        x =~= y,
    decreases x.len(),
{
    if x.len() == 0 {
        assert(y.to_multiset().len() == 0);
    } else {
        x.to_multiset_ensures();
        y.to_multiset_ensures();
        assert(y.to_multiset().len() == x.to_multiset().len());
        assert(y.len() > 0);
        // The two heads are equal: each is a minimum of the same multiset.
        assert(x.to_multiset().contains(x[0]));
        assert(y.to_multiset().contains(y[0]));
        if x[0] != y[0] {
            lemma_multiset_elem_index(x, y[0]);
            let i = choose|i: int| 0 <= i < x.len() && x[i] == y[0];
            lemma_multiset_elem_index(y, x[0]);
            let m = choose|m: int| 0 <= m < y.len() && y[m] == x[0];
            assert(i > 0 && m > 0);
            assert(!lt(x[i], x[0]));
            assert(!lt(y[m], y[0]));
            assert(lt(x[0], y[0]) || lt(y[0], x[0]));
            assert(false);
        }
        assert(x.drop_first() =~= x.remove(0));
        assert(y.drop_first() =~= y.remove(0));
        assert(x.drop_first().to_multiset() =~= x.to_multiset().remove(x[0]));
        assert(y.drop_first().to_multiset() =~= y.to_multiset().remove(y[0]));
        assert(sorted_lt(x.drop_first(), lt)) by {
            assert forall|i: int, j: int|
                0 <= i < j < x.drop_first().len() implies !lt(
                #[trigger] x.drop_first()[j],
                #[trigger] x.drop_first()[i],
            ) by {
                assert(x.drop_first()[i] == x[i + 1] && x.drop_first()[j] == x[j + 1]);
            }
        }
        assert(sorted_lt(y.drop_first(), lt)) by {
            assert forall|i: int, j: int|
                0 <= i < j < y.drop_first().len() implies !lt(
                #[trigger] y.drop_first()[j],
                #[trigger] y.drop_first()[i],
            ) by {
                assert(y.drop_first()[i] == y[i + 1] && y.drop_first()[j] == y[j + 1]);
            }
        }
        assert forall|a: T, b: T|
            x.drop_first().to_multiset().contains(a) && x.drop_first().to_multiset().contains(b)
                && a != b implies #[trigger] lt(a, b) || lt(b, a) by {
            assert(x.to_multiset().contains(a) && x.to_multiset().contains(b));
        }
        lemma_sorted_unique_comparable(x.drop_first(), y.drop_first(), lt);
        assert(x =~= seq![x[0]] + x.drop_first());
        assert(y =~= seq![y[0]] + y.drop_first());
    }
}

/// Mapping commutes with insertion when the orders agree through the map.
pub proof fn lemma_insort_map<T, V>(
    s: Seq<T>,
    x: T,
    f: spec_fn(T) -> V,
    ltt: spec_fn(T, T) -> bool,
    ltv: spec_fn(V, V) -> bool,
)
    requires
        forall|a: T, b: T| #[trigger] ltt(a, b) == ltv(f(a), f(b)),
    ensures
        spec_insort(s, x, ltt).map_values(f) =~= spec_insort(s.map_values(f), f(x), ltv),
    decreases s.len(),
{
    if s.len() == 0 {
        assert(seq![x].map_values(f) =~= seq![f(x)]);
    } else if ltt(x, s[0]) {
        assert(s.map_values(f)[0] == f(s[0]));
        assert((seq![x] + s).map_values(f) =~= seq![f(x)] + s.map_values(f));
    } else {
        assert(s.map_values(f)[0] == f(s[0]));
        lemma_insort_map(s.drop_first(), x, f, ltt, ltv);
        assert(s.drop_first().map_values(f) =~= s.map_values(f).drop_first());
        assert((seq![s[0]] + spec_insort(s.drop_first(), x, ltt)).map_values(f) =~= seq![f(s[0])]
            + spec_insort(s.drop_first(), x, ltt).map_values(f));
    }
}

/// Mapping commutes with the sort when the orders agree through the map.
pub proof fn lemma_isort_map<T, V>(
    s: Seq<T>,
    f: spec_fn(T) -> V,
    ltt: spec_fn(T, T) -> bool,
    ltv: spec_fn(V, V) -> bool,
)
    requires
        forall|a: T, b: T| #[trigger] ltt(a, b) == ltv(f(a), f(b)),
    ensures
        spec_isort(s, ltt).map_values(f) =~= spec_isort(s.map_values(f), ltv),
    decreases s.len(),
{
    if s.len() == 0 {
        assert(s.map_values(f) =~= Seq::<V>::empty());
    } else {
        lemma_isort_map(s.drop_last(), f, ltt, ltv);
        lemma_insort_map(spec_isort(s.drop_last(), ltt), s.last(), f, ltt, ltv);
        assert(s.drop_last().map_values(f) =~= s.map_values(f).drop_last());
        assert(f(s.last()) == s.map_values(f).last());
    }
}

/// Sorts the vector stably by the type's key order.
pub fn insertion_sort<T: OrderedByKey>(input: Vec<T>) -> (r: Vec<T>)
    ensures
        r@ == spec_isort(input@, key_lt_of::<T>()),
{
    let total = input.len();
    let ghost full = input@;
    let ghost lt = key_lt_of::<T>();
    let mut rest = input;
    let mut out: Vec<T> = Vec::new();
    let mut taken: usize = 0;
    proof {
        assert(full.take(0) =~= Seq::<T>::empty());
    }
    while rest.len() > 0
        invariant
            total == full.len(),
            taken + rest.len() == full.len(),
            rest@ =~= full.skip(taken as int),
            out@ == spec_isort(full.take(taken as int), lt),
            lt == key_lt_of::<T>(),
        decreases rest.len(),
    {
        let x = rest.remove(0);
        proof {
            assert(x == full[taken as int]);
            assert(rest@ =~= full.skip(taken as int + 1));
        }
        let mut j: usize = 0;
        let mut found: bool = false;
        while !found && j < out.len()
            invariant
                j <= out@.len(),
                forall|k: int| 0 <= k < j ==> !lt(x, #[trigger] out@[k]),
                found ==> j < out@.len() && lt(x, out@[j as int]),
                lt == key_lt_of::<T>(),
            decreases out@.len() - j + (if found { 0 as int } else { 1 as int }),
        {
            if x.key_lt(&out[j]) {
                found = true;
            } else {
                j = j + 1;
            }
        }
        proof {
            lemma_insort_at(out@, x, lt, j as int);
        }
        let ghost old_out = out@;
        out.insert(j, x);
        proof {
            assert(out@ =~= old_out.take(j as int) + seq![x] + old_out.skip(j as int));
            assert(out@ =~= spec_insort(old_out, x, lt));
            let upto = full.take(taken as int + 1);
            assert(upto.drop_last() =~= full.take(taken as int));
            assert(upto.last() == x);
            assert(out@ == spec_isort(upto, lt));
        }
        taken = taken + 1;
    }
    proof {
        assert(full.take(taken as int) =~= full);
    }
    out
}

} // verus!
